//! The protocol's laws, stated over the drain model and proved once for all
//! runs: no data loss under edge-triggering, at-most-once completion,
//! termination of the collect phase, and would-block being harmless.

use vstd::prelude::*;
use vstd::seq_lib::lemma_flatten_concat;
use crate::drain::{
    apply_drain, apply_events, apply_read, batch_fails, drain_bytes, drain_terminal, is_terminal,
    lemma_count_true_full, lemma_count_true_le_len, lemma_count_true_update_true, step_of,
    DrainModel, DrainStep, ReadOutcome,
};
use crate::event::Event;

verus! {

/// The outcomes a drain observes when one readiness event finds the
/// fragments `frags` buffered: each fragment read in full, in order, then
/// the terminal outcome `t`.
pub open spec fn event_outcomes(frags: Seq<Seq<u8>>, t: ReadOutcome) -> Seq<ReadOutcome> {
    frags.map_values(|f: Seq<u8>| ReadOutcome::Bytes(f.len() as usize)) + seq![t]
}

/// The accounting after a whole run of reads, each naming the connection it
/// read and what the read returned, applied in order.
pub open spec fn apply_reads(m: DrainModel, rs: Seq<(int, ReadOutcome)>) -> DrainModel
    decreases rs.len(),
{
    if rs.len() == 0 {
        m
    } else {
        apply_reads(apply_read(m, rs[0].0, rs[0].1), rs.skip(1))
    }
}

/// One read outcome never shrinks the accounting: the connection count is
/// unchanged, the invariant is kept, completions stay recorded, and the
/// completed count never decreases.
pub proof fn lemma_apply_read_preserves(m: DrainModel, i: int, o: ReadOutcome)
    ensures
        apply_read(m, i, o).connections() == m.connections(),
        m.inv() ==> apply_read(m, i, o).inv(),
        forall|j: int| m.is_handled(j) ==> #[trigger] apply_read(m, i, o).is_handled(j),
        m.completed <= apply_read(m, i, o).completed,
{
    match o {
        ReadOutcome::Bytes(n) => {
            if n == 0 && 0 <= i < m.handled.len() && !m.handled[i] {
                lemma_count_true_update_true(m.handled, i);
            }
        },
        _ => {},
    }
}

/// A whole run of reads never shrinks the accounting either.
pub proof fn lemma_apply_reads_preserves(m: DrainModel, rs: Seq<(int, ReadOutcome)>)
    ensures
        apply_reads(m, rs).connections() == m.connections(),
        m.inv() ==> apply_reads(m, rs).inv(),
        forall|j: int| m.is_handled(j) ==> #[trigger] apply_reads(m, rs).is_handled(j),
        m.completed <= apply_reads(m, rs).completed,
    decreases rs.len(),
{
    if rs.len() > 0 {
        lemma_apply_read_preserves(m, rs[0].0, rs[0].1);
        lemma_apply_reads_preserves(apply_read(m, rs[0].0, rs[0].1), rs.skip(1));
    }
}

/// At-most-once completion: once a connection is recorded complete, any run
/// of further reads keeps that record, and one more zero-length read for it
/// changes nothing at all — in particular the completed count is never
/// incremented for that connection again.
pub proof fn lemma_at_most_once_completion(m: DrainModel, rs: Seq<(int, ReadOutcome)>, i: int)
    requires
        m.inv(),
        m.is_handled(i),
    ensures
        apply_reads(m, rs).is_handled(i),
        apply_read(apply_reads(m, rs), i, ReadOutcome::Bytes(0)) == apply_reads(m, rs),
        step_of(apply_reads(m, rs), i, ReadOutcome::Bytes(0)) == DrainStep::Stop,
{
    lemma_apply_reads_preserves(m, rs);
}

/// The completed count never exceeds the number of connections.
pub proof fn lemma_completed_bounded(m: DrainModel)
    requires
        m.inv(),
    ensures
        m.completed <= m.connections(),
{
    lemma_count_true_le_len(m.handled);
}

/// Whether the run contains a zero-length read for connection `i`.
pub open spec fn has_close(rs: Seq<(int, ReadOutcome)>, i: int) -> bool {
    exists|k: int| 0 <= k < rs.len() && rs[k].0 == i && rs[k].1 == ReadOutcome::Bytes(0)
}

/// Termination: if every connection is either already recorded complete or
/// sees a zero-length read somewhere in the run, the completed count reaches
/// exactly the number of connections — the collect phase's exit condition.
pub proof fn lemma_termination(m: DrainModel, rs: Seq<(int, ReadOutcome)>)
    requires
        m.inv(),
        forall|i: int| 0 <= i < m.connections() ==> m.is_handled(i) || has_close(rs, i),
    ensures
        apply_reads(m, rs).completed == m.connections(),
    decreases rs.len(),
{
    if rs.len() == 0 {
        assert forall|i: int| 0 <= i < m.handled.len() implies m.handled[i] by {
            assert(!has_close(rs, i));
            assert(m.is_handled(i));
        }
        lemma_count_true_full(m.handled);
    } else {
        let m1 = apply_read(m, rs[0].0, rs[0].1);
        lemma_apply_read_preserves(m, rs[0].0, rs[0].1);
        assert forall|i: int| 0 <= i < m1.connections() implies m1.is_handled(i) || has_close(
            rs.skip(1),
            i,
        ) by {
            if m.is_handled(i) {
                assert(m1.is_handled(i));
            } else {
                let k = choose|k: int|
                    0 <= k < rs.len() && rs[k].0 == i && rs[k].1 == ReadOutcome::Bytes(0);
                if k == 0 {
                    assert(m1.is_handled(i));
                } else {
                    assert(rs.skip(1)[k - 1] == rs[k]);
                    assert(has_close(rs.skip(1), i));
                }
            }
        }
        lemma_termination(m1, rs.skip(1));
    }
}

/// Would-block is not an error: a would-block or interrupted read leaves the
/// accounting untouched, and the drain decision is a plain stop — never a
/// completion, never a fatal failure.
pub proof fn lemma_would_block_is_not_an_error(m: DrainModel, i: int)
    ensures
        apply_read(m, i, ReadOutcome::WouldBlock) == m,
        step_of(m, i, ReadOutcome::WouldBlock) == DrainStep::Stop,
        apply_read(m, i, ReadOutcome::Interrupted) == m,
        step_of(m, i, ReadOutcome::Interrupted) == DrainStep::Stop,
{
}

/// A whole batch of readiness events never shrinks the accounting: the
/// connection count and the invariant are kept, completions stay recorded,
/// and the completed count never decreases.
pub proof fn lemma_apply_events_preserves(m: DrainModel, events: Seq<Event>, outs: Seq<Seq<ReadOutcome>>)
    ensures
        apply_events(m, events, outs).connections() == m.connections(),
        m.inv() ==> apply_events(m, events, outs).inv(),
        forall|j: int| m.is_handled(j) ==> #[trigger] apply_events(m, events, outs).is_handled(j),
        m.completed <= apply_events(m, events, outs).completed,
    decreases events.len(),
{
    if events.len() > 0 && drain_terminal(outs[0]) != ReadOutcome::Failed {
        let m1 = apply_drain(m, events[0].spec_token(), outs[0]);
        lemma_apply_read_preserves(m, events[0].spec_token(), drain_terminal(outs[0]));
        lemma_apply_events_preserves(m1, events.skip(1), outs.skip(1));
    }
}

/// Termination, batch form: a batch in which no drain fails and whose events
/// close every connection not yet recorded complete ends the collect phase —
/// afterwards the completed count equals the number of connections.
pub proof fn lemma_batch_termination(m: DrainModel, events: Seq<Event>, outs: Seq<Seq<ReadOutcome>>)
    requires
        m.inv(),
        events.len() == outs.len(),
        !batch_fails(outs),
        forall|i: int|
            0 <= i < m.connections() ==> m.is_handled(i) || exists|k: int|
                0 <= k < events.len() && (#[trigger] events[k]).spec_token() == i
                    && drain_terminal(outs[k]) == ReadOutcome::Bytes(0),
    ensures
        apply_events(m, events, outs).completed == m.connections(),
    decreases events.len(),
{
    if events.len() == 0 {
        assert forall|i: int| 0 <= i < m.handled.len() implies m.handled[i] by {
            assert(m.is_handled(i));
        }
        lemma_count_true_full(m.handled);
    } else {
        let m1 = apply_drain(m, events[0].spec_token(), outs[0]);
        lemma_apply_read_preserves(m, events[0].spec_token(), drain_terminal(outs[0]));
        assert forall|i: int| 0 <= i < m1.connections() implies m1.is_handled(i) || exists|k: int|
            0 <= k < events.skip(1).len() && (#[trigger] events.skip(1)[k]).spec_token() == i
                && drain_terminal(outs.skip(1)[k]) == ReadOutcome::Bytes(0) by {
            if m.is_handled(i) {
                assert(m1.is_handled(i));
            } else {
                let k = choose|k: int|
                    0 <= k < events.len() && (#[trigger] events[k]).spec_token() == i
                        && drain_terminal(outs[k]) == ReadOutcome::Bytes(0);
                if k == 0 {
                    assert(m1.is_handled(i));
                } else {
                    assert(events.skip(1)[k - 1] == events[k]);
                    assert(outs.skip(1)[k - 1] == outs[k]);
                }
            }
        }
        lemma_batch_termination(m1, events.skip(1), outs.skip(1));
    }
}

/// Total length of a sequence of byte fragments.
pub open spec fn sum_lens(frags: Seq<Seq<u8>>) -> nat
    decreases frags.len(),
{
    if frags.len() == 0 {
        0
    } else {
        frags.first().len() + sum_lens(frags.drop_first())
    }
}

pub proof fn lemma_flatten_len(frags: Seq<Seq<u8>>)
    ensures
        frags.flatten().len() == sum_lens(frags),
    decreases frags.len(),
{
    if frags.len() > 0 {
        lemma_flatten_len(frags.drop_first());
    }
}

/// No data loss within one readiness event: when the event finds `frags`
/// buffered and the drain runs to any terminal outcome, it consumes exactly
/// the fragments' total length, however the delivery was fragmented.
pub proof fn lemma_no_data_loss_event(frags: Seq<Seq<u8>>, t: ReadOutcome)
    requires
        forall|k: int| 0 <= k < frags.len() ==> 0 < (#[trigger] frags[k]).len() <= usize::MAX,
        is_terminal(t),
    ensures
        drain_bytes(event_outcomes(frags, t)) == frags.flatten().len(),
    decreases frags.len(),
{
    lemma_flatten_len(frags);
    let s = event_outcomes(frags, t);
    if frags.len() == 0 {
        assert(s =~= seq![t]);
    } else {
        let rest = frags.drop_first();
        assert(s[0] == ReadOutcome::Bytes(frags[0].len() as usize));
        assert(s.skip(1) =~= event_outcomes(rest, t));
        assert(forall|k: int| 0 <= k < rest.len() ==> rest[k] == #[trigger] frags[k + 1]);
        lemma_no_data_loss_event(rest, t);
        lemma_flatten_len(rest);
    }
}

/// Total bytes drained over a run: one full drain per readiness event, the
/// event `e` finding `events[e]` buffered and ending on terminal `ts[e]`.
pub open spec fn run_bytes(events: Seq<Seq<Seq<u8>>>, ts: Seq<ReadOutcome>) -> nat
    decreases events.len(),
{
    if events.len() == 0 {
        0
    } else {
        (drain_bytes(event_outcomes(events.first(), ts.first())) + run_bytes(
            events.drop_first(),
            ts.drop_first(),
        )) as nat
    }
}

/// No data loss under edge-triggering: a response delivered as arbitrary
/// nonempty fragments across any number of readiness events is consumed by
/// the drain protocol byte for byte — the total equals the length of the
/// whole response read in one blocking pass, namely the flattened fragments.
pub proof fn lemma_no_data_loss(events: Seq<Seq<Seq<u8>>>, ts: Seq<ReadOutcome>)
    requires
        events.len() == ts.len(),
        forall|e: int, k: int|
            0 <= e < events.len() && 0 <= k < events[e].len() ==> 0 < (#[trigger] events[e][k]).len()
                <= usize::MAX,
        forall|e: int| 0 <= e < ts.len() ==> is_terminal(#[trigger] ts[e]),
    ensures
        run_bytes(events, ts) == events.flatten().flatten().len(),
    decreases events.len(),
{
    if events.len() == 0 {
        assert(events.flatten() =~= Seq::<Seq<u8>>::empty());
        assert(events.flatten().flatten() =~= Seq::<u8>::empty());
    } else {
        let first = events.first();
        let rest = events.drop_first();
        assert(forall|k: int| 0 <= k < first.len() ==> first[k] == #[trigger] events[0][k]);
        lemma_no_data_loss_event(first, ts.first());
        assert(forall|e: int| 0 <= e < rest.len() ==> rest[e] == #[trigger] events[e + 1]);
        assert forall|e: int, k: int|
            0 <= e < rest.len() && 0 <= k < rest[e].len() implies 0 < (#[trigger] rest[e][k]).len()
            <= usize::MAX by {
            assert(rest[e] == events[e + 1]);
        }
        assert forall|e: int| 0 <= e < ts.drop_first().len() implies is_terminal(
            #[trigger] ts.drop_first()[e],
        ) by {
            assert(ts.drop_first()[e] == ts[e + 1]);
        }
        lemma_no_data_loss(rest, ts.drop_first());
        assert(events.flatten() == first.add(rest.flatten()));
        lemma_flatten_concat(first, rest.flatten());
    }
}

} // verus!
