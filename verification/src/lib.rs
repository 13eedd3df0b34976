//! A minimal non-blocking I/O reactor core: registration bookkeeping for an
//! edge-triggered readiness facility, readiness events correlated by token,
//! and the drain protocol that consumes readiness notifications without
//! losing data and without double-counting completions.
//!
//! The blocking syscalls themselves (creating the kernel notification
//! instance, registering descriptors with it, waiting for events, and the
//! non-blocking socket reads) live with the caller; this crate holds every
//! decision the reactor makes about those calls' results, with contracts.

pub mod drain;
pub mod errors;
pub mod event;
pub mod laws;
pub mod registry;
pub mod request;
