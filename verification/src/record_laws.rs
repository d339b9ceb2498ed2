//! What recording does to a frame trace: which slot an event takes, under which number, and
//! what starting, stopping and inputs leave behind.
use vstd::prelude::*;

use crate::frame_trace::{input_event, AppKitInputRoute, FrameTraceModel};
use crate::trace_buffer::{
    claim_outcome, min_of, slot_of, FrameTraceSlot, SlotClaim, SlotObservation, TraceModel,
    WRITER_LIMIT,
};
use crate::trace_event::{
    FrameTraceCaptureLevel, FrameTraceEvent, FrameTraceEventKind, FrameTraceInput,
    FrameTraceSnapshot,
};

verus! {

/// A slot is claimed exactly where nobody was writing to it, it was older, and nothing
/// happened to it in between. A newer event in a slot at rest supersedes the writer;
/// otherwise another writer was in the way.
pub proof fn a_slot_goes_to_the_newer_event(
    observed: SlotObservation,
    current: SlotObservation,
    sequence: u64,
)
    ensures
        claim_outcome(observed, current, sequence) == SlotClaim::Claimed <==> !observed.writing
            && observed.sequence < sequence && current == observed,
        claim_outcome(observed, current, sequence) == SlotClaim::Superseded <==> !observed.writing
            && sequence <= observed.sequence,
{
}

/// Numbers take the slots in turn: a number falls on a slot that there is, the next one on
/// the next slot or the first, and one falls on the same slot again when all others had
/// their turn.
pub proof fn slots_are_taken_in_turn(sequence: u64, later: u64, capacity: int)
    requires
        capacity > 0,
        0 < sequence < later,
    ensures
        0 <= slot_of(sequence, capacity) < capacity,
        slot_of(1, capacity) == 0,
        later == sequence + 1 ==> slot_of(later, capacity) == (if slot_of(sequence, capacity) + 1
            < capacity {
            slot_of(sequence, capacity) + 1
        } else {
            0
        }),
        later == sequence + capacity ==> slot_of(later, capacity) == slot_of(sequence, capacity),
        later < sequence + capacity ==> slot_of(later, capacity) != slot_of(sequence, capacity),
{
    let a = sequence - 1;
    let b = later - 1;
    vstd::arithmetic::div_mod::lemma_fundamental_div_mod(a, capacity);
    vstd::arithmetic::div_mod::lemma_fundamental_div_mod(b, capacity);
    vstd::arithmetic::div_mod::lemma_mod_bound(a, capacity);
    vstd::arithmetic::div_mod::lemma_mod_bound(b, capacity);
    vstd::arithmetic::div_mod::lemma_small_mod(0, capacity as nat);
    let q = a / capacity;
    let r = a % capacity;
    assert(a == capacity * q + r);
    if later == sequence + 1 {
        if r + 1 < capacity {
            assert(b == q * capacity + (r + 1)) by (nonlinear_arith)
                requires
                    b == a + 1,
                    a == capacity * q + r,
            ;
            vstd::arithmetic::div_mod::lemma_fundamental_div_mod_converse(b, capacity, q, r + 1);
        } else {
            assert(b == (q + 1) * capacity + 0) by (nonlinear_arith)
                requires
                    b == a + 1,
                    a == capacity * q + r,
                    r + 1 == capacity,
            ;
            vstd::arithmetic::div_mod::lemma_fundamental_div_mod_converse(b, capacity, q + 1, 0);
        }
    }
    if later == sequence + capacity {
        assert(b == (q + 1) * capacity + r) by (nonlinear_arith)
            requires
                b == a + capacity,
                a == capacity * q + r,
        ;
        vstd::arithmetic::div_mod::lemma_fundamental_div_mod_converse(b, capacity, q + 1, r);
    }
    if later < sequence + capacity && b % capacity == r {
        let p = b / capacity;
        assert(b - a == capacity * (p - q)) by (nonlinear_arith)
            requires
                b == capacity * p + r,
                a == capacity * q + r,
        ;
        assert(false) by (nonlinear_arith)
            requires
                b - a == capacity * (p - q),
                0 < b - a < capacity,
        ;
    }
}

/// Whether one state of a buffer follows from another by putting an event into the slot of
/// the next number, under that number, and by nothing else.
pub open spec fn takes_event(
    before: TraceModel,
    after: TraceModel,
    event: FrameTraceEvent,
) -> bool {
    let number = before.next_event_sequence_id;
    let k = slot_of(number, before.slots.len() as int);
    &&& after.next_event_sequence_id == number + 1
    &&& after.slots.len() == before.slots.len()
    &&& after.slots[k].sequence == number
    &&& !after.slots[k].writing
    &&& after.slots[k].event == Some(FrameTraceEvent { event_sequence_id: number, ..event })
    &&& forall|i: int|
        0 <= i < before.slots.len() && i != k ==> #[trigger] after.slots[i] == before.slots[i]
    &&& before.published_events < u64::MAX ==> after.published_events == before.published_events
        + 1
    &&& after.writer_count == before.writer_count
    &&& after.superseded_writes == before.superseded_writes
    &&& after.contended_writes == before.contended_writes
}

/// An event that is recorded in a buffer at rest takes the next number and its slot. A
/// stopped buffer takes none.
pub proof fn a_recorded_event_takes_the_next_slot(model: TraceModel, event: FrameTraceEvent)
    requires
        model.wf(),
        model.quiet(),
        model.has_room(),
    ensures
        !model.stopped && model.writer_count < WRITER_LIMIT ==> takes_event(
            model,
            model.recorded(event),
            event,
        ) && model.recorded(event).stopped == model.stopped && model.recorded(
            event,
        ).snapshot_claimed == model.snapshot_claimed,
        model.stopped || model.writer_count >= WRITER_LIMIT ==> model.recorded(event) == model,
{
    vstd::arithmetic::div_mod::lemma_mod_bound(
        model.next_event_sequence_id - 1,
        model.slots.len() as int,
    );
}

/// Whether nothing but the buffer differs between two states of a trace.
pub open spec fn same_but_for_buffer(before: FrameTraceModel, after: FrameTraceModel) -> bool {
    after == FrameTraceModel { trace: after.trace, ..before }
}

/// A trace records an event exactly where it is running and the event belongs to the chain
/// that every capture keeps, or the capture is detailed.
pub proof fn a_trace_records_what_it_keeps(model: FrameTraceModel, event: FrameTraceEvent)
    requires
        model.wf(),
        model.has_room(),
    ensures
        same_but_for_buffer(model, model.recorded(event)),
        model.enabled() && (event.kind.in_reference() || model.detailed_capture_enabled)
            ==> model.recorded(event).trace is Some && takes_event(
            model.trace->0,
            model.recorded(event).trace->0,
            event,
        ) && !model.recorded(event).trace->0.stopped,
        !model.enabled() || !(event.kind.in_reference() || model.detailed_capture_enabled)
            ==> model.recorded(event) == model,
{
    if let Some(buffer) = model.trace {
        if model.enabled() {
            a_recorded_event_takes_the_next_slot(buffer, event);
        }
    }
}

/// A trace can be started once, with room for events. It then runs, for its run and at its
/// level, and its first event says when it was started. Nothing else changes.
pub proof fn a_trace_starts_with_one_event(
    model: FrameTraceModel,
    capacity: usize,
    level: FrameTraceCaptureLevel,
    run_id_hash: u64,
    timestamp_ns: u64,
)
    requires
        capacity > 0,
    ensures
        model.startable(capacity) <==> model.trace is None,
        !model.startable(0),
        ({
            let after = model.started(capacity, level, run_id_hash, timestamp_ns);
            let buffer = after.trace->0;
            &&& after.enabled()
            &&& after.active_run_id_hash == run_id_hash
            &&& after.detailed_capture_enabled == (level == FrameTraceCaptureLevel::Detailed)
            &&& buffer.slots.len() == capacity
            &&& buffer.slots[0].sequence == 1
            &&& buffer.slots[0].event is Some
            &&& buffer.slots[0].event->0.kind == FrameTraceEventKind::TraceStarted
            &&& buffer.slots[0].event->0.timestamp_ns == timestamp_ns
            &&& buffer.slots[0].event->0.event_sequence_id == 1
            &&& forall|i: int|
                0 < i < capacity ==> (#[trigger] buffer.slots[i]).sequence == 0
                    && !buffer.slots[i].writing
            &&& buffer.next_event_sequence_id == 2
            &&& buffer.published_events == 1
            &&& buffer.superseded_writes == 0
            &&& buffer.contended_writes == 0
            &&& after == FrameTraceModel {
                trace: after.trace,
                active_run_id_hash: after.active_run_id_hash,
                detailed_capture_enabled: after.detailed_capture_enabled,
                ..model
            }
        }),
{
    vstd::arithmetic::div_mod::lemma_small_mod(0, capacity as nat);
    assert(slot_of(1, capacity as int) == 0);
    let empty = TraceModel::empty(capacity as int);
    assert(empty.slots.len() == capacity);
    assert(empty.admits());
    assert(!empty.slots[0].writing);
}

/// A trace that is stopped runs no more, for no run and at no level. Its last event says when
/// it was stopped. Nothing else changes.
pub proof fn a_trace_stops_with_one_event(model: FrameTraceModel, timestamp_ns: u64)
    requires
        model.wf(),
        model.has_room(),
        model.enabled(),
    ensures
        ({
            let after = model.stopped(timestamp_ns);
            let last = FrameTraceEvent::spec_now(FrameTraceEventKind::TraceStopped, timestamp_ns);
            &&& !after.enabled()
            &&& after.trace is Some
            &&& after.trace->0.stopped
            &&& takes_event(model.trace->0, after.trace->0, last)
            &&& after.active_run_id_hash == 0
            &&& !after.detailed_capture_enabled
            &&& after == FrameTraceModel {
                trace: after.trace,
                active_run_id_hash: after.active_run_id_hash,
                detailed_capture_enabled: after.detailed_capture_enabled,
                ..model
            }
        }),
{
    let buffer = model.trace->0;
    vstd::arithmetic::div_mod::lemma_mod_bound(
        buffer.next_event_sequence_id - 1,
        buffer.slots.len() as int,
    );
}

/// An input of a running trace gets the next number, under which its event is recorded, and
/// is the latest one. Without a running trace nothing happens.
pub proof fn an_input_gets_the_next_number(model: FrameTraceModel, input: FrameTraceInput)
    requires
        model.wf(),
        model.has_room(),
        model.last_input_sequence_id < u64::MAX,
    ensures
        ({
            let after = model.with_input(input);
            let number = (model.last_input_sequence_id + 1) as u64;
            &&& !model.enabled() ==> after == model
            &&& model.enabled() ==> {
                &&& after.last_input_sequence_id == model.last_input_sequence_id + 1
                &&& after.latest_input_sequence_id == model.last_input_sequence_id + 1
                &&& after.enabled()
                &&& takes_event(model.trace->0, after.trace->0, input_event(input, number))
                &&& after == FrameTraceModel {
                    trace: after.trace,
                    last_input_sequence_id: after.last_input_sequence_id,
                    latest_input_sequence_id: after.latest_input_sequence_id,
                    ..model
                }
            }
        }),
{
    if model.enabled() {
        let number = (model.last_input_sequence_id + 1) as u64;
        a_recorded_event_takes_the_next_slot(model.trace->0, input_event(input, number));
        vstd::arithmetic::div_mod::lemma_mod_bound(
            model.trace->0.next_event_sequence_id - 1,
            model.trace->0.slots.len() as int,
        );
    }
}

/// A process begins without a trace, and with nothing numbered.
pub proof fn a_process_begins_without_a_trace()
    ensures
        ({
            let model = FrameTraceModel::fresh();
            &&& model.trace is None
            &&& !model.enabled()
            &&& model.active_run_id_hash == 0
            &&& !model.detailed_capture_enabled
            &&& model.last_input_sequence_id == 0
            &&& model.latest_input_sequence_id == 0
            &&& model.last_logical_frame_id == 0
            &&& model.last_gpui_window_frame_id == 0
            &&& model.last_renderer_instance_id == 0
            &&& model.last_display_tick_sequence_id == 0
        }),
{
}

/// While a scope is entered its input is the one that is routed; after it was left, the one
/// that was routed before it is.
pub proof fn a_scope_routes_its_input(route: AppKitInputRoute, input: u64)
    ensures
        route.entering(input).current_input_sequence_id == input,
        route.entering(input).leaving(route.scope_for()).current_input_sequence_id
            == route.current_input_sequence_id,
        route.scope_for().previous_input_sequence_id == route.current_input_sequence_id,
{
}

/// What a writer sees of a slot is its number and whether somebody is writing.
pub proof fn a_slot_is_seen_as_it_is(slot: FrameTraceSlot)
    ensures
        slot.observation().sequence == slot.sequence,
        slot.observation().writing == slot.writing,
{
}

/// A snapshot tells the run, the capacity and the writes that were given up, for either
/// reason; and of the events that were published, the one that ends the trace among them,
/// those that it does not hold were overwritten.
pub proof fn a_snapshot_tells_what_was_given_up(
    model: TraceModel,
    timestamp_ns: u64,
    run_id_hash: u64,
    snapshot: FrameTraceSnapshot,
)
    requires
        model.wf(),
        model.quiet(),
        !model.stopped,
        model.has_room(),
        model.published_events < u64::MAX,
        model.snapshot_is(timestamp_ns, run_id_hash, snapshot),
    ensures
        snapshot.run_id_hash == run_id_hash,
        snapshot.capacity == model.slots.len(),
        snapshot.superseded_writes == model.superseded_writes,
        snapshot.contended_writes == model.contended_writes,
        snapshot.events@.len() <= model.published_events + 1 ==> snapshot.overwritten_events
            + snapshot.events@.len() == model.published_events + 1,
        snapshot.events@.len() > model.published_events + 1 ==> snapshot.overwritten_events == 0,
        forall|i: int|
            0 <= i < model.slots.len() && i != slot_of(
                model.next_event_sequence_id,
                model.slots.len() as int,
            ) && (#[trigger] model.slots[i]).sequence != 0 ==> snapshot.events@.contains(
                model.slots[i].event->0,
            ),
{
    vstd::arithmetic::div_mod::lemma_mod_bound(
        model.next_event_sequence_id - 1,
        model.slots.len() as int,
    );
    let after = model.stopped_at(timestamp_ns);
    assert forall|i: int|
        0 <= i < model.slots.len() && i != slot_of(
            model.next_event_sequence_id,
            model.slots.len() as int,
        ) && (#[trigger] model.slots[i]).sequence != 0 implies snapshot.events@.contains(
        model.slots[i].event->0,
    ) by {
        assert(after.slots[i] == model.slots[i]);
    }
}

/// The smaller of two numbers is one of them, and at most either.
pub proof fn the_smaller_of_two(a: int, b: int)
    ensures
        min_of(a, b) <= a,
        min_of(a, b) <= b,
        min_of(a, b) == a || min_of(a, b) == b,
{
}

} // verus!
