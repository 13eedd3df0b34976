//! The edge-triggered drain protocol.
//!
//! A readiness notification fires only on a transition to ready, so the
//! caller must keep reading the descriptor until a terminal outcome: a
//! zero-length read (the peer half-closed; the exchange is complete), a
//! would-block (no more data for now), an interruption, or a fatal failure.
//! This module holds the accounting for that protocol: which connections
//! have been confirmed complete, counted at most once each, and the decision
//! taken after every read. The non-blocking reads themselves happen at the
//! caller; every result they can produce is a [`ReadOutcome`] here.

use vstd::prelude::*;
use crate::errors::ReactorError;
use crate::event::Event;

verus! {

/// What one non-blocking read of a connection reported.
#[derive(Clone, Copy, Debug, PartialEq, Eq, Structural)]
pub enum ReadOutcome {
    /// The read returned this many bytes; zero means the peer half-closed
    /// and the connection's logical exchange is complete.
    Bytes(usize),
    /// No data currently available: the normal, expected end of a drain.
    WouldBlock,
    /// The read was interrupted; the drain stops without an error.
    Interrupted,
    /// Any other I/O failure: fatal for the whole batch.
    Failed,
}

/// What the drain loop must do after one read outcome.
#[derive(Clone, Copy, Debug, PartialEq, Eq, Structural)]
pub enum DrainStep {
    /// Data was read: keep reading, since bytes still buffered after this
    /// notification will never be announced again.
    Continue,
    /// Stop draining this descriptor: it was recorded complete for the first
    /// time, and the completed count was incremented.
    Completed,
    /// Stop draining this descriptor; nothing was counted.
    Stop,
    /// Abort the whole batch with an I/O error.
    Fatal,
}

/// The drain accounting, as specifications see it: one handled flag per
/// connection, and the number of connections confirmed complete.
pub ghost struct DrainModel {
    /// `handled[i]` records that connection `i` was confirmed complete.
    pub handled: Seq<bool>,
    /// How many connections have been confirmed complete.
    pub completed: nat,
}

/// How many entries of `s` are set.
pub open spec fn count_true(s: Seq<bool>) -> nat
    decreases s.len(),
{
    if s.len() == 0 {
        0
    } else {
        count_true(s.drop_last()) + if s.last() {
            1nat
        } else {
            0nat
        }
    }
}

pub proof fn lemma_count_true_le_len(s: Seq<bool>)
    ensures
        count_true(s) <= s.len(),
    decreases s.len(),
{
    if s.len() > 0 {
        lemma_count_true_le_len(s.drop_last());
    }
}

pub proof fn lemma_count_true_full(s: Seq<bool>)
    requires
        forall|i: int| 0 <= i < s.len() ==> s[i],
    ensures
        count_true(s) == s.len(),
    decreases s.len(),
{
    if s.len() > 0 {
        lemma_count_true_full(s.drop_last());
    }
}

pub proof fn lemma_count_true_update_true(s: Seq<bool>, i: int)
    requires
        0 <= i < s.len(),
        !s[i],
    ensures
        count_true(s.update(i, true)) == count_true(s) + 1,
    decreases s.len(),
{
    let t = s.update(i, true);
    if i == s.len() - 1 {
        assert(t.drop_last() =~= s.drop_last());
    } else {
        assert(t.drop_last() =~= s.drop_last().update(i, true));
        lemma_count_true_update_true(s.drop_last(), i);
    }
}

impl DrainModel {
    /// How many connections the accounting covers.
    pub open spec fn connections(self) -> nat {
        self.handled.len()
    }

    /// Whether connection `i` was confirmed complete.
    pub open spec fn is_handled(self, i: int) -> bool {
        0 <= i < self.handled.len() && self.handled[i]
    }

    /// The completed count is exactly the number of handled connections.
    pub open spec fn inv(self) -> bool {
        self.completed == count_true(self.handled)
    }
}

/// The accounting after one read outcome for connection `index`: a first
/// zero-length read marks the connection handled and counts it; every other
/// outcome, including a repeated zero-length read, changes nothing.
pub open spec fn apply_read(m: DrainModel, index: int, o: ReadOutcome) -> DrainModel {
    match o {
        ReadOutcome::Bytes(n) => if n == 0 && 0 <= index < m.handled.len() && !m.handled[index] {
            DrainModel { handled: m.handled.update(index, true), completed: m.completed + 1 }
        } else {
            m
        },
        _ => m,
    }
}

/// The decision after one read outcome for connection `index`.
pub open spec fn step_of(m: DrainModel, index: int, o: ReadOutcome) -> DrainStep {
    match o {
        ReadOutcome::Bytes(n) => if n > 0 {
            DrainStep::Continue
        } else if m.is_handled(index) {
            DrainStep::Stop
        } else {
            DrainStep::Completed
        },
        ReadOutcome::WouldBlock => DrainStep::Stop,
        ReadOutcome::Interrupted => DrainStep::Stop,
        ReadOutcome::Failed => DrainStep::Fatal,
    }
}

/// Whether the outcome ends a drain: anything but a positive read.
pub open spec fn is_terminal(o: ReadOutcome) -> bool {
    match o {
        ReadOutcome::Bytes(n) => n == 0,
        _ => true,
    }
}

/// Whether a recorded outcome sequence reaches a drain terminal at all.
pub open spec fn has_terminal(s: Seq<ReadOutcome>) -> bool {
    exists|k: int| 0 <= k < s.len() && is_terminal(s[k])
}

/// The bytes a drain consumes from `s`: the positive reads before the first
/// terminal outcome.
pub open spec fn drain_bytes(s: Seq<ReadOutcome>) -> nat
    decreases s.len(),
{
    if s.len() == 0 {
        0
    } else {
        match s[0] {
            ReadOutcome::Bytes(n) => if n > 0 {
                (n + drain_bytes(s.skip(1))) as nat
            } else {
                0
            },
            _ => 0,
        }
    }
}

/// The terminal outcome a drain of `s` stops on; meaningful when
/// `has_terminal(s)` holds.
pub open spec fn drain_terminal(s: Seq<ReadOutcome>) -> ReadOutcome
    decreases s.len(),
{
    if s.len() == 0 {
        ReadOutcome::WouldBlock
    } else if is_terminal(s[0]) {
        s[0]
    } else {
        drain_terminal(s.skip(1))
    }
}

/// The accounting after draining one readiness event for connection `index`:
/// only the terminal outcome can change it.
pub open spec fn apply_drain(m: DrainModel, index: int, s: Seq<ReadOutcome>) -> DrainModel {
    apply_read(m, index, drain_terminal(s))
}

/// The accounting after a whole batch: each event drained in order, stopping
/// at the first event whose drain ends in a failure.
pub open spec fn apply_events(m: DrainModel, events: Seq<Event>, outs: Seq<Seq<ReadOutcome>>) -> DrainModel
    decreases events.len(),
{
    if events.len() == 0 {
        m
    } else if drain_terminal(outs[0]) == ReadOutcome::Failed {
        m
    } else {
        apply_events(
            apply_drain(m, events[0].spec_token(), outs[0]),
            events.skip(1),
            outs.skip(1),
        )
    }
}

/// Whether some event's drain in the batch ends in a fatal failure.
pub open spec fn batch_fails(outs: Seq<Seq<ReadOutcome>>) -> bool
    decreases outs.len(),
{
    if outs.len() == 0 {
        false
    } else {
        drain_terminal(outs[0]) == ReadOutcome::Failed || batch_fails(outs.skip(1))
    }
}

/// The views of a vector of recorded outcome vectors.
pub open spec fn seq_views(outs: Seq<Vec<ReadOutcome>>) -> Seq<Seq<ReadOutcome>> {
    outs.map_values(|v: Vec<ReadOutcome>| v@)
}

/// What one drain of one readiness event produced.
#[derive(Clone, Copy, Debug, PartialEq, Eq, Structural)]
pub struct DrainOutcome {
    /// How many bytes the drain consumed.
    pub bytes: usize,
    /// Whether this drain confirmed the connection complete for the first
    /// time (and so incremented the completed count).
    pub newly_completed: bool,
}

/// The drain accounting: which connections (indices into the caller's
/// ordered connection collection) have been confirmed fully drained, and how
/// many have, counted at most once each.
pub struct DrainState {
    handled: Vec<bool>,
    completed: usize,
}

impl View for DrainState {
    type V = DrainModel;

    closed spec fn view(&self) -> DrainModel {
        DrainModel { handled: self.handled@, completed: self.completed as nat }
    }
}

impl DrainState {
    /// Fresh accounting for `n` connections: none handled, none counted.
    pub fn new(n: usize) -> (s: DrainState)
        ensures
            s@.inv(),
            s@.connections() == n,
            s@.completed == 0,
            forall|i: int| !s@.is_handled(i),
    {
        let mut handled: Vec<bool> = Vec::new();
        let mut i: usize = 0;
        while i < n
            invariant
                i <= n,
                handled@.len() == i,
                count_true(handled@) == 0,
                forall|j: int| 0 <= j < i ==> !handled@[j],
            decreases n - i,
        {
            let ghost pre = handled@;
            handled.push(false);
            proof {
                assert(handled@.drop_last() =~= pre);
            }
            i = i + 1;
        }
        DrainState { handled, completed: 0 }
    }

    /// How many connections the accounting covers.
    pub fn connections(&self) -> (n: usize)
        ensures
            n == self@.connections(),
    {
        self.handled.len()
    }

    /// How many connections have been confirmed complete so far.
    pub fn completed_count(&self) -> (c: usize)
        ensures
            c == self@.completed,
    {
        self.completed
    }

    /// Whether connection `index` was already confirmed complete.
    pub fn is_handled(&self, index: usize) -> (b: bool)
        ensures
            b == self@.is_handled(index as int),
    {
        if index < self.handled.len() {
            self.handled[index]
        } else {
            false
        }
    }

    /// The drain decision for one read of connection `index`.
    ///
    /// A positive read keeps the drain going; a first zero-length read marks
    /// the connection complete and counts it exactly once; a repeated
    /// zero-length read, a would-block or an interruption stop the drain
    /// without counting; any other failure is fatal for the batch.
    pub fn on_read(&mut self, index: usize, outcome: ReadOutcome) -> (step: DrainStep)
        requires
            old(self)@.inv(),
            (index as int) < old(self)@.connections(),
        ensures
            final(self)@ == apply_read(old(self)@, index as int, outcome),
            step == step_of(old(self)@, index as int, outcome),
            final(self)@.inv(),
            final(self)@.connections() == old(self)@.connections(),
            (outcome == ReadOutcome::WouldBlock || outcome == ReadOutcome::Interrupted) ==> (
            final(self)@ == old(self)@ && step == DrainStep::Stop),
            step == DrainStep::Completed ==> final(self)@.completed == old(self)@.completed + 1,
            step != DrainStep::Completed ==> final(self)@ == old(self)@,
    {
        match outcome {
            ReadOutcome::Bytes(n) => {
                if n > 0 {
                    DrainStep::Continue
                } else if self.handled[index] {
                    DrainStep::Stop
                } else {
                    proof {
                        lemma_count_true_update_true(self.handled@, index as int);
                        lemma_count_true_le_len(self.handled@.update(index as int, true));
                    }
                    // the count stays below the connection count, a usize
                    let slots: usize = self.handled.len();
                    assert(count_true(self.handled@.update(index as int, true)) <= slots);
                    self.handled.set(index, true);
                    self.completed = self.completed + 1;
                    DrainStep::Completed
                }
            },
            ReadOutcome::WouldBlock => DrainStep::Stop,
            ReadOutcome::Interrupted => DrainStep::Stop,
            ReadOutcome::Failed => DrainStep::Fatal,
        }
    }

    /// Drains one readiness event for connection `index`, given the recorded
    /// outcomes of successive non-blocking reads in order.
    ///
    /// Consumes every positive read before the first terminal outcome, as the
    /// edge-triggered contract demands, and returns how many bytes that was.
    /// A first zero-length read is counted as the connection's completion; a
    /// repeated one, a would-block or an interruption end the drain without
    /// counting; any other failure aborts with an I/O error, leaving the
    /// accounting unchanged.
    pub fn drain_event(&mut self, index: usize, outcomes: &Vec<ReadOutcome>) -> (r: Result<
        DrainOutcome,
        ReactorError,
    >)
        requires
            old(self)@.inv(),
            (index as int) < old(self)@.connections(),
            has_terminal(outcomes@),
            drain_bytes(outcomes@) <= usize::MAX,
        ensures
            final(self)@.inv(),
            final(self)@.connections() == old(self)@.connections(),
            drain_terminal(outcomes@) == ReadOutcome::Failed ==> r == Err::<
                DrainOutcome,
                ReactorError,
            >(ReactorError::Io) && final(self)@ == old(self)@,
            drain_terminal(outcomes@) != ReadOutcome::Failed ==> {
                &&& final(self)@ == apply_drain(old(self)@, index as int, outcomes@)
                &&& r == Ok::<DrainOutcome, ReactorError>(
                    DrainOutcome {
                        bytes: drain_bytes(outcomes@) as usize,
                        newly_completed: drain_terminal(outcomes@) == ReadOutcome::Bytes(0usize)
                            && !old(self)@.is_handled(index as int),
                    },
                )
            },
    {
        let mut k: usize = 0;
        let mut bytes: usize = 0;
        proof {
            assert(outcomes@.skip(0) =~= outcomes@);
        }
        loop
            invariant
                self@.inv(),
                self@ == old(self)@,
                (index as int) < self@.connections(),
                k <= outcomes@.len(),
                has_terminal(outcomes@.skip(k as int)),
                bytes + drain_bytes(outcomes@.skip(k as int)) == drain_bytes(outcomes@),
                drain_terminal(outcomes@.skip(k as int)) == drain_terminal(outcomes@),
                drain_bytes(outcomes@) <= usize::MAX,
            decreases outcomes@.len() - k,
        {
            proof {
                if outcomes@.skip(k as int).len() == 0 {
                    assert(!has_terminal(outcomes@.skip(k as int)));
                }
            }
            let o = outcomes[k];
            proof {
                assert(outcomes@.skip(k as int)[0] == outcomes@[k as int]);
                assert(outcomes@.skip(k as int).skip(1) =~= outcomes@.skip(k as int + 1));
            }
            match o {
                ReadOutcome::Bytes(n) => {
                    if n > 0 {
                        let ghost k0 = k as int;
                        proof {
                            assert(drain_bytes(outcomes@.skip(k0)) == n + drain_bytes(
                                outcomes@.skip(k0 + 1),
                            ));
                            let j = choose|j: int|
                                0 <= j < outcomes@.skip(k0).len() && is_terminal(
                                    outcomes@.skip(k0)[j],
                                );
                            assert(is_terminal(outcomes@.skip(k0)[j]));
                            assert(outcomes@.skip(k0 + 1)[j - 1] == outcomes@.skip(k0)[j]);
                            assert(has_terminal(outcomes@.skip(k0 + 1)));
                        }
                        bytes = bytes + n;
                        let olen: usize = outcomes.len();
                        assert(k < olen);
                        k = k + 1;
                    } else {
                        let step = self.on_read(index, o);
                        return Ok(
                            DrainOutcome { bytes, newly_completed: step == DrainStep::Completed },
                        );
                    }
                },
                ReadOutcome::WouldBlock => {
                    return Ok(DrainOutcome { bytes, newly_completed: false });
                },
                ReadOutcome::Interrupted => {
                    return Ok(DrainOutcome { bytes, newly_completed: false });
                },
                ReadOutcome::Failed => {
                    return Err(ReactorError::Io);
                },
            }
        }
    }
}

/// Runs the drain protocol over one batch of readiness events.
///
/// `outcomes[k]` records what successive non-blocking reads of the
/// connection named by `events[k]`'s token returned. Every event is drained
/// to its terminal outcome in order; a fatal read failure aborts the whole
/// batch, keeping the completions counted before it. On success the result
/// is how many connections this batch confirmed complete for the first time.
pub fn handle_events(
    events: &Vec<Event>,
    state: &mut DrainState,
    outcomes: &Vec<Vec<ReadOutcome>>,
) -> (r: Result<usize, ReactorError>)
    requires
        old(state)@.inv(),
        events@.len() == outcomes@.len(),
        forall|k: int|
            0 <= k < events@.len() ==> (#[trigger] events@[k]).spec_token() < old(
                state,
            )@.connections(),
        forall|k: int| 0 <= k < outcomes@.len() ==> has_terminal((#[trigger] outcomes@[k])@),
        forall|k: int| 0 <= k < outcomes@.len() ==> drain_bytes((#[trigger] outcomes@[k])@) <= usize::MAX,
    ensures
        final(state)@.inv(),
        final(state)@.connections() == old(state)@.connections(),
        final(state)@ == apply_events(old(state)@, events@, seq_views(outcomes@)),
        r is Err <==> batch_fails(seq_views(outcomes@)),
        r is Err ==> r == Err::<usize, ReactorError>(ReactorError::Io),
        r matches Ok(c) ==> c + old(state)@.completed == final(state)@.completed,
{
    let ghost outs = seq_views(outcomes@);
    let mut k: usize = 0;
    let mut counted: usize = 0;
    proof {
        assert(events@.skip(0) =~= events@);
        assert(outs.skip(0) =~= outs);
    }
    while k < events.len()
        invariant
            state@.inv(),
            state@.connections() == old(state)@.connections(),
            events@.len() == outcomes@.len(),
            k <= events@.len(),
            outs == seq_views(outcomes@),
            counted + old(state)@.completed == state@.completed,
            apply_events(state@, events@.skip(k as int), outs.skip(k as int)) == apply_events(
                old(state)@,
                events@,
                outs,
            ),
            batch_fails(outs.skip(k as int)) == batch_fails(outs),
            forall|j: int|
                0 <= j < events@.len() ==> (#[trigger] events@[j]).spec_token() < state@.connections(),
            forall|j: int| 0 <= j < outcomes@.len() ==> has_terminal((#[trigger] outcomes@[j])@),
            forall|j: int|
                0 <= j < outcomes@.len() ==> drain_bytes((#[trigger] outcomes@[j])@) <= usize::MAX,
        decreases events@.len() - k,
    {
        proof {
            assert(events@.skip(k as int)[0] == events@[k as int]);
            assert(outs.skip(k as int)[0] == outs[k as int]);
            assert(outs[k as int] == outcomes@[k as int]@);
            assert(events@.skip(k as int).skip(1) =~= events@.skip(k as int + 1));
            assert(outs.skip(k as int).skip(1) =~= outs.skip(k as int + 1));
        }
        let event = &events[k];
        let index = event.token();
        match state.drain_event(index, &outcomes[k]) {
            Ok(d) => {
                if d.newly_completed {
                    let c = state.completed_count();
                    assert(counted < c);
                    counted = counted + 1;
                }
            },
            Err(e) => {
                return Err(e);
            },
        }
        k = k + 1;
    }
    proof {
        assert(events@.skip(k as int).len() == 0);
        assert(outs.skip(k as int).len() == 0);
    }
    Ok(counted)
}

} // verus!
