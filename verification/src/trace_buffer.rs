//! The bounded buffer behind a frame trace.
//!
//! Writers register, reserve a sequence number, claim the slot that the number
//! falls on, write and leave. Each of these is one step here, so that what holds
//! after every step holds of every interleaving of writers. A slot only ever
//! moves on to a higher number; a writer that comes too late, or finds the slot
//! held, gives its event up. Stopping turns new writers away; once those that
//! were registered have left, the events are collected.
use vstd::prelude::*;

use crate::stable_sort::{item_kept_by_sort, keys_stay_distinct, sort, Keyed};
use crate::trace_event::{FrameTraceEvent, FrameTraceEventKind, FrameTraceSnapshot};

verus! {

/// Sequence numbers stay below this one.
pub const SEQUENCE_LIMIT: u64 = 0x8000_0000_0000_0000;

/// Writers registered at the same time stay below this number.
pub const WRITER_LIMIT: usize = usize::MAX / 2;

/// A slot: the highest number that has claimed it, whether that writer is still
/// writing, and the event.
#[derive(Clone, Copy, Debug)]
pub struct FrameTraceSlot {
    pub sequence: u64,
    pub writing: bool,
    pub event: Option<FrameTraceEvent>,
}

/// What a writer saw of a slot.
#[derive(Clone, Copy, Debug, PartialEq, Eq, Structural)]
pub struct SlotObservation {
    pub sequence: u64,
    pub writing: bool,
}

/// How an attempt to claim a slot ended.
#[derive(Clone, Copy, Debug, PartialEq, Eq, Structural)]
pub enum SlotClaim {
    /// The writer holds the slot.
    Claimed,
    /// Another writer holds the slot, or took it in between.
    Contended,
    /// A newer event is in the slot.
    Superseded,
}

/// A buffer of a fixed number of slots.
pub struct FrameTraceBuffer {
    pub slots: Vec<FrameTraceSlot>,
    pub writer_count: usize,
    pub stopped: bool,
    pub snapshot_claimed: bool,
    pub next_event_sequence_id: u64,
    pub published_events: u64,
    pub superseded_writes: u64,
    pub contended_writes: u64,
}

/// The contents of a buffer.
pub struct TraceModel {
    pub slots: Seq<FrameTraceSlot>,
    pub writer_count: int,
    pub stopped: bool,
    pub snapshot_claimed: bool,
    pub next_event_sequence_id: u64,
    pub published_events: u64,
    pub superseded_writes: u64,
    pub contended_writes: u64,
}

/// One more, as a counter of 64 bits counts.
pub open spec fn counted(counter: u64) -> u64 {
    if counter == u64::MAX {
        0
    } else {
        (counter + 1) as u64
    }
}

/// What becomes of an attempt to claim a slot that was observed as `observed` and
/// now is `current`.
pub open spec fn claim_outcome(
    observed: SlotObservation,
    current: SlotObservation,
    sequence: u64,
) -> SlotClaim {
    if observed.writing {
        SlotClaim::Contended
    } else if observed.sequence >= sequence {
        SlotClaim::Superseded
    } else if current != observed {
        SlotClaim::Contended
    } else {
        SlotClaim::Claimed
    }
}

/// Whether an event numbered `sequence` may go on after the slot was observed:
/// `None` where it may try to claim, else why it gives up.
pub fn slot_verdict(observed: SlotObservation, sequence: u64) -> (verdict: Option<SlotClaim>)
    ensures
        verdict.is_none() <==> !observed.writing && observed.sequence < sequence,
        verdict is Some ==> forall|current: SlotObservation|
            verdict == Some(#[trigger] claim_outcome(observed, current, sequence)),
{
    if observed.writing {
        Some(SlotClaim::Contended)
    } else if observed.sequence >= sequence {
        Some(SlotClaim::Superseded)
    } else {
        None
    }
}

/// Whether another writer may register.
pub fn admits_writer(stopped: bool, writer_count: usize) -> (admitted: bool)
    ensures
        admitted == (!stopped && writer_count < WRITER_LIMIT),
{
    !stopped && writer_count < WRITER_LIMIT
}

/// The slot that a number falls on.
pub open spec fn slot_of(sequence: u64, capacity: int) -> int {
    (sequence - 1) % capacity
}

/// The slot that a number falls on.
pub fn slot_index(sequence: u64, capacity: usize) -> (index: usize)
    requires
        sequence > 0,
        capacity > 0,
    ensures
        index as int == slot_of(sequence, capacity as int),
        index < capacity,
{
    ((sequence - 1) % (capacity as u64)) as usize
}

impl FrameTraceSlot {
    /// What a writer sees of the slot.
    pub open spec fn observation(self) -> SlotObservation {
        SlotObservation { sequence: self.sequence, writing: self.writing }
    }
}

impl TraceModel {
    /// An empty buffer.
    pub open spec fn empty(capacity: int) -> TraceModel {
        TraceModel {
            slots: Seq::new(
                capacity as nat,
                |i: int| FrameTraceSlot { sequence: 0, writing: false, event: None },
            ),
            writer_count: 0,
            stopped: false,
            snapshot_claimed: false,
            next_event_sequence_id: 1,
            published_events: 0,
            superseded_writes: 0,
            contended_writes: 0,
        }
    }

    /// Every slot holds a number that falls on it and has been reserved, and one
    /// that is not being written holds the event of its number. The snapshot is
    /// claimed exactly when the buffer is stopped.
    pub open spec fn wf(self) -> bool {
        &&& self.slots.len() > 0
        &&& self.snapshot_claimed == self.stopped
        &&& self.next_event_sequence_id > 0
        &&& forall|i: int| 0 <= i < self.slots.len() ==> self.slot_wf(i)
    }

    /// What holds of one slot.
    pub open spec fn slot_wf(self, i: int) -> bool {
        let slot = self.slots[i];
        if slot.sequence == 0 {
            !slot.writing
        } else {
            &&& slot_of(slot.sequence, self.slots.len() as int) == i
            &&& slot.sequence < self.next_event_sequence_id
            &&& !slot.writing ==> slot.event is Some && slot.event->0.event_sequence_id
                == slot.sequence
        }
    }

    /// No slot is being written.
    pub open spec fn quiet(self) -> bool {
        forall|i: int| 0 <= i < self.slots.len() ==> !(#[trigger] self.slots[i]).writing
    }

    /// Another number can be reserved.
    pub open spec fn has_room(self) -> bool {
        self.next_event_sequence_id < SEQUENCE_LIMIT
    }

    /// Another writer may register.
    pub open spec fn admits(self) -> bool {
        !self.stopped && self.writer_count < WRITER_LIMIT
    }

    /// The slot of the next number.
    pub open spec fn next_slot(self) -> int {
        slot_of(self.next_event_sequence_id, self.slots.len() as int)
    }

    /// Whether an event that reserves the next number is published when nobody
    /// writes in between.
    pub open spec fn publishes(self) -> bool {
        !self.slots[self.next_slot()].writing
    }

    /// The buffer after an undisturbed registered write: the event takes the next
    /// number and its slot, or is given up where the slot is held.
    pub open spec fn written(self, event: FrameTraceEvent) -> TraceModel {
        let sequence = self.next_event_sequence_id;
        let reserved = TraceModel { next_event_sequence_id: (sequence + 1) as u64, ..self };
        if self.publishes() {
            TraceModel {
                slots: self.slots.update(
                    self.next_slot(),
                    FrameTraceSlot {
                        sequence,
                        writing: false,
                        event: Some(FrameTraceEvent { event_sequence_id: sequence, ..event }),
                    },
                ),
                published_events: counted(self.published_events),
                ..reserved
            }
        } else {
            TraceModel { contended_writes: counted(self.contended_writes), ..reserved }
        }
    }

    /// The buffer after an undisturbed `record`.
    pub open spec fn recorded(self, event: FrameTraceEvent) -> TraceModel {
        if self.admits() {
            self.written(event)
        } else {
            self
        }
    }

    /// Whether an undisturbed `record` publishes its event.
    pub open spec fn accepts(self) -> bool {
        self.admits() && self.publishes()
    }

    /// Nothing was given up so far, and the slots hold the newest events.
    pub open spec fn complete(self) -> bool {
        &&& self.published_events == self.next_event_sequence_id - 1
        &&& self.superseded_writes == 0
        &&& self.contended_writes == 0
        &&& forall|sequence: u64|
            1 <= sequence < self.next_event_sequence_id && sequence + self.slots.len()
                >= self.next_event_sequence_id ==> (
            #[trigger] self.slots[slot_of(sequence, self.slots.len() as int)]).sequence == sequence
        &&& forall|i: int|
            self.next_event_sequence_id - 1 <= i < self.slots.len() ==> (
            #[trigger] self.slots[i]).sequence == 0
    }

    /// No slot has gone back to an older number.
    pub open spec fn moved_on_from(self, before: TraceModel) -> bool {
        &&& self.slots.len() == before.slots.len()
        &&& forall|i: int|
            0 <= i < self.slots.len() ==> before.slots[i].sequence <= (
            #[trigger] self.slots[i]).sequence
    }
}

/// Two slots hold different numbers.
pub proof fn slot_numbers_are_distinct(model: TraceModel, i: int, j: int)
    requires
        model.wf(),
        0 <= i < j < model.slots.len(),
        model.slots[i].sequence != 0,
    ensures
        model.slots[i].sequence != model.slots[j].sequence,
{
    assert(model.slot_wf(i));
    assert(model.slot_wf(j));
}

proof fn written_stays_wf(model: TraceModel, event: FrameTraceEvent)
    requires
        model.wf(),
        model.has_room(),
    ensures
        model.written(event).wf(),
        model.written(event).moved_on_from(model),
        model.quiet() ==> model.written(event).quiet() && model.publishes(),
{
    let after = model.written(event);
    let k = model.next_slot();
    vstd::arithmetic::div_mod::lemma_mod_bound(
        model.next_event_sequence_id - 1,
        model.slots.len() as int,
    );
    assert forall|i: int| 0 <= i < after.slots.len() implies after.slot_wf(i) by {
        assert(model.slot_wf(i));
    }
    assert(model.slot_wf(k));
}

proof fn written_stays_complete(model: TraceModel, event: FrameTraceEvent)
    requires
        model.wf(),
        model.quiet(),
        model.has_room(),
        model.complete(),
    ensures
        model.written(event).complete(),
{
    let after = model.written(event);
    let capacity = model.slots.len() as int;
    let sequence = model.next_event_sequence_id;
    let k = model.next_slot();
    vstd::arithmetic::div_mod::lemma_mod_bound(sequence - 1, capacity);
    assert forall|s: u64|
        1 <= s < after.next_event_sequence_id && s + capacity >= after.next_event_sequence_id
        implies (#[trigger] after.slots[slot_of(s, capacity)]).sequence == s by {
        vstd::arithmetic::div_mod::lemma_mod_bound(s - 1, capacity);
        if s < sequence {
            let gap = sequence - s;
            assert(0 < gap < capacity);
            if slot_of(s, capacity) == k {
                vstd::arithmetic::div_mod::lemma_fundamental_div_mod(s - 1, capacity);
                vstd::arithmetic::div_mod::lemma_fundamental_div_mod(sequence - 1, capacity);
                let a = (s - 1) / capacity;
                let b = (sequence - 1) / capacity;
                assert(gap == capacity * (b - a)) by (nonlinear_arith)
                    requires
                        s - 1 == capacity * a + k,
                        sequence - 1 == capacity * b + k,
                        gap == sequence - s,
                ;
                assert(false) by (nonlinear_arith)
                    requires
                        gap == capacity * (b - a),
                        0 < gap < capacity,
                ;
            }
            assert(model.slots[slot_of(s, capacity)].sequence == s);
        }
    }
    assert forall|i: int| after.next_event_sequence_id - 1 <= i < capacity implies (
    #[trigger] after.slots[i]).sequence == 0 by {
        if i == k {
            vstd::arithmetic::div_mod::lemma_small_mod((sequence - 1) as nat, capacity as nat);
        }
        assert(model.slots[i].sequence == 0);
    }
}

/// What a snapshot holds of a quiet buffer: the event of every slot in use, by
/// ascending number.
pub open spec fn collects(events: Seq<FrameTraceEvent>, slots: Seq<FrameTraceSlot>) -> bool {
    &&& forall|i: int, j: int|
        0 <= i < j < events.len() ==> (#[trigger] events[i]).event_sequence_id < (
        #[trigger] events[j]).event_sequence_id
    &&& forall|i: int|
        0 <= i < slots.len() && (#[trigger] slots[i]).sequence != 0 ==> events.contains(
            slots[i].event->0,
        )
    &&& forall|j: int| 0 <= j < events.len() ==> in_a_slot(slots, #[trigger] events[j])
}

/// Whether a slot in use holds the event.
pub open spec fn in_a_slot(slots: Seq<FrameTraceSlot>, event: FrameTraceEvent) -> bool {
    exists|i: int|
        0 <= i < slots.len() && (#[trigger] slots[i]).sequence != 0 && slots[i].event == Some(event)
}

/// A buffer in which nothing was given up hands out its newest events without a
/// gap: as many as it can hold, the last of them the last one recorded.
pub proof fn newest_events_are_kept(model: TraceModel, events: Seq<FrameTraceEvent>)
    requires
        model.wf(),
        model.quiet(),
        model.complete(),
        collects(events, model.slots),
        events.len() == min_of(model.slots.len() as int, model.next_event_sequence_id - 1),
    ensures
        forall|i: int|
            0 <= i < events.len() ==> (#[trigger] events[i]).event_sequence_id
                == model.next_event_sequence_id - events.len() + i,
{
    let next = model.next_event_sequence_id as int;
    let capacity = model.slots.len() as int;
    let count = events.len() as int;
    assert forall|j: int| 0 <= j < count implies next - count <= (
    #[trigger] events[j]).event_sequence_id < next by {
        assert(in_a_slot(model.slots, events[j]));
        let i = choose|i: int|
            0 <= i < model.slots.len() && (#[trigger] model.slots[i]).sequence != 0
                && model.slots[i].event == Some(events[j]);
        assert(model.slot_wf(i));
        let s = model.slots[i].sequence;
        if count == capacity && s < next - capacity {
            let newer = newest_number_of_slot(i, next, capacity);
            assert(model.slots[slot_of(newer, capacity)].sequence == newer);
        }
    }
    ascending_run(events, next - count, count);
}

/// The highest number below `next` that falls on slot `i`, where `next` numbers
/// have gone all the way round.
proof fn newest_number_of_slot(i: int, next: int, capacity: int) -> (sequence: u64)
    requires
        0 <= i < capacity,
        capacity <= next - 1,
        next <= u64::MAX,
    ensures
        1 <= sequence < next,
        sequence + capacity >= next,
        slot_of(sequence, capacity) == i,
{
    let last = next - 2;
    let back = (last - i) % capacity;
    vstd::arithmetic::div_mod::lemma_mod_bound(last - i, capacity);
    vstd::arithmetic::div_mod::lemma_fundamental_div_mod(last - i, capacity);
    let rounds = (last - i) / capacity;
    let place = last - back;
    assert(place == i + capacity * rounds);
    vstd::arithmetic::div_mod::lemma_mod_multiples_vanish(rounds, i, capacity);
    vstd::arithmetic::div_mod::lemma_small_mod(i as nat, capacity as nat);
    assert((capacity * rounds + i) % capacity == i % capacity);
    (place + 1) as u64
}

/// The smaller of two numbers.
pub open spec fn min_of(a: int, b: int) -> int {
    if a <= b {
        a
    } else {
        b
    }
}

proof fn ascending_run(events: Seq<FrameTraceEvent>, low: int, count: int)
    requires
        events.len() == count,
        forall|i: int, j: int|
            0 <= i < j < events.len() ==> (#[trigger] events[i]).event_sequence_id < (
            #[trigger] events[j]).event_sequence_id,
        forall|j: int|
            0 <= j < count ==> low <= (#[trigger] events[j]).event_sequence_id < low + count,
    ensures
        forall|i: int|
            0 <= i < count ==> (#[trigger] events[i]).event_sequence_id == low + i,
{
    assert forall|i: int| 0 <= i < count implies (#[trigger] events[i]).event_sequence_id == low
        + i by {
        run_lower(events, low, i);
        run_upper(events, low + count, i);
    }
}

proof fn run_lower(events: Seq<FrameTraceEvent>, low: int, i: int)
    requires
        0 <= i < events.len(),
        forall|a: int, b: int|
            0 <= a < b < events.len() ==> (#[trigger] events[a]).event_sequence_id < (
            #[trigger] events[b]).event_sequence_id,
        forall|j: int| 0 <= j < events.len() ==> low <= (#[trigger] events[j]).event_sequence_id,
    ensures
        low + i <= events[i].event_sequence_id,
    decreases i,
{
    if i > 0 {
        run_lower(events, low, i - 1);
        assert(events[i - 1].event_sequence_id < events[i].event_sequence_id);
    }
}

proof fn run_upper(events: Seq<FrameTraceEvent>, high: int, i: int)
    requires
        0 <= i < events.len(),
        forall|a: int, b: int|
            0 <= a < b < events.len() ==> (#[trigger] events[a]).event_sequence_id < (
            #[trigger] events[b]).event_sequence_id,
        forall|j: int| 0 <= j < events.len() ==> (#[trigger] events[j]).event_sequence_id < high,
    ensures
        events[i].event_sequence_id <= high - (events.len() - i),
    decreases events.len() - i,
{
    if i < events.len() - 1 {
        run_upper(events, high, i + 1);
        assert(events[i].event_sequence_id < events[i + 1].event_sequence_id);
    }
}

impl FrameTraceBuffer {
    /// The contents.
    pub open spec fn view(&self) -> TraceModel {
        TraceModel {
            slots: self.slots@,
            writer_count: self.writer_count as int,
            stopped: self.stopped,
            snapshot_claimed: self.snapshot_claimed,
            next_event_sequence_id: self.next_event_sequence_id,
            published_events: self.published_events,
            superseded_writes: self.superseded_writes,
            contended_writes: self.contended_writes,
        }
    }

    /// An empty buffer for `capacity` events.
    pub fn new(capacity: usize) -> (buffer: FrameTraceBuffer)
        ensures
            buffer@ == TraceModel::empty(capacity as int),
            capacity > 0 ==> buffer@.wf() && buffer@.quiet() && buffer@.complete(),
    {
        let mut slots: Vec<FrameTraceSlot> = Vec::new();
        let mut i: usize = 0;
        while i < capacity
            invariant
                i <= capacity,
                slots@.len() == i,
                forall|k: int|
                    0 <= k < i ==> slots@[k] == (FrameTraceSlot {
                        sequence: 0,
                        writing: false,
                        event: None,
                    }),
            decreases capacity - i,
        {
            slots.push(FrameTraceSlot { sequence: 0, writing: false, event: None });
            i = i + 1;
        }
        proof {
            assert(slots@ =~= TraceModel::empty(capacity as int).slots);
        }
        FrameTraceBuffer {
            slots,
            writer_count: 0,
            stopped: false,
            snapshot_claimed: false,
            next_event_sequence_id: 1,
            published_events: 0,
            superseded_writes: 0,
            contended_writes: 0,
        }
    }

    /// Registers a writer. Fails once the buffer is stopped, or with as many
    /// writers as can be counted.
    pub fn register_writer(&mut self) -> (registered: bool)
        ensures
            registered == old(self)@.admits(),
            final(self)@ == (TraceModel {
                writer_count: old(self)@.writer_count + (if registered {
                    1int
                } else {
                    0int
                }),
                ..old(self)@
            }),
    {
        if !admits_writer(self.stopped, self.writer_count) {
            return false;
        }
        self.writer_count = self.writer_count + 1;
        true
    }

    /// Lets a registered writer leave.
    pub fn unregister_writer(&mut self)
        requires
            old(self)@.writer_count > 0,
        ensures
            final(self)@ == (TraceModel {
                writer_count: old(self)@.writer_count - 1,
                ..old(self)@
            }),
    {
        self.writer_count = self.writer_count - 1;
    }

    /// Reserves the next number.
    pub fn reserve(&mut self) -> (sequence: u64)
        requires
            old(self)@.wf(),
            old(self)@.has_room(),
        ensures
            sequence == old(self)@.next_event_sequence_id,
            final(self)@ == (TraceModel {
                next_event_sequence_id: (sequence + 1) as u64,
                ..old(self)@
            }),
            final(self)@.wf(),
            final(self)@.moved_on_from(old(self)@),
    {
        let sequence: u64 = self.next_event_sequence_id;
        self.next_event_sequence_id = sequence + 1;
        proof {
            assert forall|i: int| 0 <= i < self@.slots.len() implies self@.slot_wf(i) by {
                assert(old(self)@.slot_wf(i));
            }
        }
        sequence
    }

    /// What a writer sees of the slot of its number.
    pub fn observe(&self, sequence: u64) -> (observed: SlotObservation)
        requires
            self@.wf(),
            sequence > 0,
        ensures
            observed == self@.slots[slot_of(sequence, self@.slots.len() as int)].observation(),
    {
        let slot = self.slots[slot_index(sequence, self.slots.len())];
        SlotObservation { sequence: slot.sequence, writing: slot.writing }
    }

    /// Tries to claim the slot of a reserved number after having observed it. The
    /// claim succeeds only where the slot was free and older and nobody changed it
    /// in between; the claimed slot is held until `publish`.
    pub fn claim(&mut self, sequence: u64, observed: SlotObservation) -> (outcome: SlotClaim)
        requires
            old(self)@.wf(),
            0 < sequence < old(self)@.next_event_sequence_id,
        ensures
            final(self)@.wf(),
            final(self)@.moved_on_from(old(self)@),
            ({
                let index = slot_of(sequence, old(self)@.slots.len() as int);
                let slot = old(self)@.slots[index];
                &&& outcome == claim_outcome(observed, slot.observation(), sequence)
                &&& final(self)@ == match outcome {
                    SlotClaim::Claimed => TraceModel {
                        slots: old(self)@.slots.update(
                            index,
                            FrameTraceSlot { sequence, writing: true, event: slot.event },
                        ),
                        ..old(self)@
                    },
                    SlotClaim::Contended => TraceModel {
                        contended_writes: counted(old(self)@.contended_writes),
                        ..old(self)@
                    },
                    SlotClaim::Superseded => TraceModel {
                        superseded_writes: counted(old(self)@.superseded_writes),
                        ..old(self)@
                    },
                }
            }),
    {
        let index: usize = slot_index(sequence, self.slots.len());
        let slot = self.slots[index];
        let outcome = match slot_verdict(observed, sequence) {
            Some(verdict) => verdict,
            None => {
                if slot.sequence == observed.sequence && slot.writing == observed.writing {
                    SlotClaim::Claimed
                } else {
                    SlotClaim::Contended
                }
            },
        };
        assert(outcome == claim_outcome(observed, slot.observation(), sequence));
        match outcome {
            SlotClaim::Claimed => {
                let held = FrameTraceSlot { sequence, writing: true, event: slot.event };
                self.slots.set(index, held);
            },
            SlotClaim::Contended => {
                self.contended_writes = self.contended_writes.wrapping_add(1);
            },
            SlotClaim::Superseded => {
                self.superseded_writes = self.superseded_writes.wrapping_add(1);
            },
        }
        proof {
            assert forall|i: int| 0 <= i < self@.slots.len() implies self@.slot_wf(i) by {
                assert(old(self)@.slot_wf(i));
            }
        }
        outcome
    }

    /// Writes the event into the slot that its writer holds, and frees the slot.
    pub fn publish(&mut self, sequence: u64, event: FrameTraceEvent)
        requires
            old(self)@.wf(),
            sequence > 0,
            ({
                let slot = old(self)@.slots[slot_of(sequence, old(self)@.slots.len() as int)];
                slot.writing && slot.sequence == sequence
            }),
        ensures
            final(self)@.wf(),
            final(self)@.moved_on_from(old(self)@),
            final(self)@ == (TraceModel {
                slots: old(self)@.slots.update(
                    slot_of(sequence, old(self)@.slots.len() as int),
                    FrameTraceSlot {
                        sequence,
                        writing: false,
                        event: Some(FrameTraceEvent { event_sequence_id: sequence, ..event }),
                    },
                ),
                published_events: counted(old(self)@.published_events),
                ..old(self)@
            }),
    {
        let index: usize = slot_index(sequence, self.slots.len());
        let mut numbered = event;
        numbered.event_sequence_id = sequence;
        let filled = FrameTraceSlot { sequence, writing: false, event: Some(numbered) };
        self.slots.set(index, filled);
        self.published_events = self.published_events.wrapping_add(1);
        proof {
            assert forall|i: int| 0 <= i < self@.slots.len() implies self@.slot_wf(i) by {
                assert(old(self)@.slot_wf(i));
            }
        }
    }

    /// Writes an event without being disturbed: reserves a number, claims its slot
    /// and publishes. Returns whether the event was published.
    pub fn write_registered(&mut self, event: FrameTraceEvent) -> (published: bool)
        requires
            old(self)@.wf(),
            old(self)@.has_room(),
        ensures
            published == old(self)@.publishes(),
            final(self)@ == old(self)@.written(event),
            final(self)@.wf(),
            final(self)@.moved_on_from(old(self)@),
            old(self)@.quiet() ==> published && final(self)@.quiet(),
            old(self)@.quiet() && old(self)@.complete() ==> final(self)@.complete(),
    {
        let ghost before = self@;
        proof {
            written_stays_wf(before, event);
            if before.quiet() && before.complete() {
                written_stays_complete(before, event);
            }
            assert(before.slot_wf(before.next_slot()));
        }
        let sequence: u64 = self.reserve();
        let observed = self.observe(sequence);
        match self.claim(sequence, observed) {
            SlotClaim::Claimed => {
                self.publish(sequence, event);
                proof {
                    assert(self@.slots =~= before.written(event).slots);
                }
                true
            },
            _ => false,
        }
    }

    /// Records an event without being disturbed. Returns whether the event was
    /// published: it is not once the buffer is stopped, with as many writers as
    /// can be counted, or where a writer holds the slot.
    pub fn record(&mut self, event: FrameTraceEvent) -> (published: bool)
        requires
            old(self)@.wf(),
            old(self)@.admits() ==> old(self)@.has_room(),
        ensures
            published == old(self)@.accepts(),
            final(self)@ == old(self)@.recorded(event),
            final(self)@.wf(),
            final(self)@.moved_on_from(old(self)@),
            old(self)@.quiet() ==> final(self)@.quiet(),
            old(self)@.quiet() && old(self)@.complete() ==> final(self)@.complete(),
    {
        let ghost before = self@;
        if !self.register_writer() {
            return false;
        }
        let ghost registered = self@;
        proof {
            assert forall|i: int| 0 <= i < registered.slots.len() implies registered.slot_wf(
                i,
            ) by {
                assert(before.slot_wf(i));
            }
            if before.quiet() && before.complete() {
                assert(registered.complete()) by {
                    assert forall|s: u64|
                        1 <= s < registered.next_event_sequence_id && s + registered.slots.len()
                            >= registered.next_event_sequence_id implies (
                    #[trigger] registered.slots[slot_of(s, registered.slots.len() as int)]).sequence
                        == s by {
                        assert(before.slots[slot_of(s, before.slots.len() as int)].sequence == s);
                    }
                }
            }
        }
        let published = self.write_registered(event);
        let ghost wrote = self@;
        self.unregister_writer();
        proof {
            assert(self@ == before.written(event));
            written_stays_wf(before, event);
            if before.quiet() && before.complete() {
                written_stays_complete(before, event);
            }
        }
        published
    }

    /// Claims the only snapshot and turns new writers away. Returns whether the
    /// snapshot was still to be had.
    pub fn begin_stop(&mut self) -> (claimed: bool)
        ensures
            claimed == !old(self)@.snapshot_claimed,
            final(self)@ == if claimed {
                TraceModel { snapshot_claimed: true, stopped: true, ..old(self)@ }
            } else {
                old(self)@
            },
            old(self)@.wf() ==> final(self)@.wf(),
    {
        if self.snapshot_claimed {
            return false;
        }
        self.snapshot_claimed = true;
        self.stopped = true;
        proof {
            if old(self)@.wf() {
                assert forall|i: int| 0 <= i < self@.slots.len() implies self@.slot_wf(i) by {
                    assert(old(self)@.slot_wf(i));
                }
            }
        }
        true
    }

    /// Collects the events after the last writer has left: writes the event that
    /// ends the trace, then takes every slot in use, by ascending number.
    pub fn finish_stop(&mut self, timestamp_ns: u64, run_id_hash: u64) -> (snapshot:
        FrameTraceSnapshot)
        requires
            old(self)@.wf(),
            old(self)@.quiet(),
            old(self)@.has_room(),
        ensures
            final(self)@ == old(self)@.written(
                FrameTraceEvent::spec_now(FrameTraceEventKind::TraceStopped, timestamp_ns),
            ),
            final(self)@.wf(),
            final(self)@.quiet(),
            snapshot.run_id_hash == run_id_hash,
            snapshot.capacity as int == final(self)@.slots.len(),
            snapshot.superseded_writes == final(self)@.superseded_writes,
            snapshot.contended_writes == final(self)@.contended_writes,
            collects(snapshot.events@, final(self)@.slots),
            snapshot.overwritten_events == if final(self)@.published_events
                >= snapshot.events@.len() {
                final(self)@.published_events - snapshot.events@.len()
            } else {
                0
            },
            snapshot.events@.len() > 0,
            snapshot.events@.last() == (FrameTraceEvent {
                event_sequence_id: old(self)@.next_event_sequence_id,
                ..FrameTraceEvent::spec_now(FrameTraceEventKind::TraceStopped, timestamp_ns)
            }),
            old(self)@.complete() ==> {
                &&& final(self)@.complete()
                &&& snapshot.events@.len() == min_of(
                    final(self)@.slots.len() as int,
                    final(self)@.next_event_sequence_id - 1,
                )
                &&& forall|i: int|
                    0 <= i < snapshot.events@.len() ==> (
                    #[trigger] snapshot.events@[i]).event_sequence_id
                        == final(self)@.next_event_sequence_id - snapshot.events@.len() + i
            },
    {
        let ghost before = self@;
        let ending = FrameTraceEvent::now(FrameTraceEventKind::TraceStopped, timestamp_ns);
        self.write_registered(ending);
        let ghost model = self@;
        let mut events: Vec<FrameTraceEvent> = Vec::new();
        let mut i: usize = 0;
        while i < self.slots.len()
            invariant
                self@ == model,
                model.wf(),
                model.quiet(),
                0 <= i <= model.slots.len(),
                events@.len() <= i,
                model.complete() ==> events@.len() == min_of(
                    i as int,
                    model.next_event_sequence_id - 1,
                ),
                forall|k: int|
                    0 <= k < i && (#[trigger] model.slots[k]).sequence != 0 ==> events@.contains(
                        model.slots[k].event->0,
                    ),
                forall|j: int|
                    0 <= j < events@.len() ==> in_a_slot(
                        model.slots.take(i as int),
                        #[trigger] events@[j],
                    ),
                forall|a: int, b: int|
                    0 <= a < b < events@.len() ==> (#[trigger] events@[a]).key() != (
                    #[trigger] events@[b]).key(),
            decreases model.slots.len() - i,
        {
            let slot = self.slots[i];
            let ghost taken = events@;
            let ghost seen = model.slots.take(i as int);
            proof {
                assert(model.slot_wf(i as int));
                if model.complete() && i < model.next_event_sequence_id - 1 {
                    occupied_slot(model, i as int);
                }
            }
            if slot.sequence != 0 {
                if let Some(event) = slot.event {
                    events.push(event);
                    proof {
                        assert(events@[taken.len() as int] == event);
                        assert forall|k: int|
                            0 <= k < i + 1 && (#[trigger] model.slots[k]).sequence
                                != 0 implies events@.contains(model.slots[k].event->0) by {
                            if k < i {
                                let at = choose|at: int|
                                    0 <= at < taken.len() && taken[at] == model.slots[k].event->0;
                                assert(taken.contains(model.slots[k].event->0));
                                assert(events@[at] == model.slots[k].event->0);
                            }
                        }
                        assert forall|a: int, b: int| 0 <= a < b < events@.len() implies (
                        #[trigger] events@[a]).key() != (#[trigger] events@[b]).key() by {
                            if b == taken.len() {
                                assert(in_a_slot(seen, taken[a]));
                                let k = choose|k: int|
                                    0 <= k < seen.len() && (#[trigger] seen[k]).sequence != 0
                                        && seen[k].event == Some(taken[a]);
                                assert(seen[k] == model.slots[k]);
                                assert(model.slot_wf(k));
                                slot_numbers_are_distinct(model, k, i as int);
                            } else {
                                assert(taken[a].key() != taken[b].key());
                            }
                        }
                    }
                }
            }
            proof {
                let now_seen = model.slots.take(i + 1);
                assert forall|j: int| 0 <= j < events@.len() implies in_a_slot(
                    now_seen,
                    #[trigger] events@[j],
                ) by {
                    if j < taken.len() {
                        assert(in_a_slot(seen, taken[j]));
                        let k = choose|k: int|
                            0 <= k < seen.len() && (#[trigger] seen[k]).sequence != 0
                                && seen[k].event == Some(taken[j]);
                        assert(now_seen[k] == seen[k]);
                    } else {
                        assert(now_seen[i as int] == slot);
                    }
                }
            }
            i = i + 1;
        }
        let ghost gathered = events@;
        sort(&mut events);
        proof {
            keys_stay_distinct(gathered, events@);
            assert forall|k: int|
                0 <= k < model.slots.len() && (#[trigger] model.slots[k]).sequence
                    != 0 implies events@.contains(model.slots[k].event->0) by {
                item_kept_by_sort(gathered, events@, model.slots[k].event->0);
            }
            assert(model.slots.take(i as int) =~= model.slots);
            assert forall|j: int| 0 <= j < events@.len() implies in_a_slot(
                model.slots,
                #[trigger] events@[j],
            ) by {
                assert(events@.contains(events@[j]));
                item_kept_by_sort(gathered, events@, events@[j]);
                let g = choose|g: int| 0 <= g < gathered.len() && gathered[g] == events@[j];
                assert(in_a_slot(model.slots, gathered[g]));
            }
            assert forall|a: int, b: int| 0 <= a < b < events@.len() implies (
            #[trigger] events@[a]).event_sequence_id < (
            #[trigger] events@[b]).event_sequence_id by {
                assert(events@[a].key() <= events@[b].key());
                assert(events@[a].key() != events@[b].key());
            }
            assert(collects(events@, model.slots));
            last_is_the_ending(before, ending, events@);
            if before.complete() {
                newest_events_are_kept(model, events@);
            }
        }
        let published: u64 = self.published_events;
        let kept: u64 = events.len() as u64;
        FrameTraceSnapshot {
            run_id_hash,
            capacity: self.slots.len(),
            overwritten_events: published.saturating_sub(kept),
            superseded_writes: self.superseded_writes,
            contended_writes: self.contended_writes,
            events,
        }
    }

    /// Stops recording and takes the snapshot, once, with no writer registered.
    pub fn stop_and_snapshot(&mut self, timestamp_ns: u64, run_id_hash: u64) -> (snapshot: Option<
        FrameTraceSnapshot,
    >)
        requires
            old(self)@.wf(),
            old(self)@.quiet(),
            !old(self)@.stopped ==> old(self)@.has_room(),
        ensures
            final(self)@ == old(self)@.stopped_at(timestamp_ns),
            final(self)@.wf(),
            final(self)@.quiet(),
            snapshot is Some <==> !old(self)@.snapshot_claimed,
            snapshot is Some ==> old(self)@.snapshot_is(timestamp_ns, run_id_hash, snapshot->0),
    {
        let ghost before = self@;
        if !self.begin_stop() {
            return None;
        }
        let ghost closed = self@;
        proof {
            if before.complete() {
                assert(closed.complete()) by {
                    assert forall|s: u64|
                        1 <= s < closed.next_event_sequence_id && s + closed.slots.len()
                            >= closed.next_event_sequence_id implies (
                    #[trigger] closed.slots[slot_of(s, closed.slots.len() as int)]).sequence == s by {
                        assert(before.slots[slot_of(s, before.slots.len() as int)].sequence == s);
                    }
                }
            }
        }
        Some(self.finish_stop(timestamp_ns, run_id_hash))
    }
}

impl TraceModel {
    /// The buffer after `stop_and_snapshot`.
    pub open spec fn stopped_at(self, timestamp_ns: u64) -> TraceModel {
        if self.snapshot_claimed {
            self
        } else {
            TraceModel { snapshot_claimed: true, stopped: true, ..self }.written(
                FrameTraceEvent::spec_now(FrameTraceEventKind::TraceStopped, timestamp_ns),
            )
        }
    }

    /// What the snapshot of the buffer holds: the event of every slot in use after
    /// the ending was written, by ascending number, the ending last; and where
    /// nothing was given up, the newest events without a gap.
    pub open spec fn snapshot_is(
        self,
        timestamp_ns: u64,
        run_id_hash: u64,
        snapshot: FrameTraceSnapshot,
    ) -> bool {
        let after = self.stopped_at(timestamp_ns);
        let events = snapshot.events@;
        &&& snapshot.run_id_hash == run_id_hash
        &&& snapshot.capacity as int == self.slots.len()
        &&& snapshot.superseded_writes == self.superseded_writes
        &&& snapshot.contended_writes == self.contended_writes
        &&& collects(events, after.slots)
        &&& snapshot.overwritten_events == if after.published_events >= events.len() {
            after.published_events - events.len()
        } else {
            0
        }
        &&& events.len() > 0
        &&& events.last() == (FrameTraceEvent {
            event_sequence_id: self.next_event_sequence_id,
            ..FrameTraceEvent::spec_now(FrameTraceEventKind::TraceStopped, timestamp_ns)
        })
        &&& self.complete() ==> {
            &&& events.len() == min_of(self.slots.len() as int, self.next_event_sequence_id as int)
            &&& forall|i: int|
                0 <= i < events.len() ==> (#[trigger] events[i]).event_sequence_id
                    == self.next_event_sequence_id + 1 - events.len() + i
        }
    }
}

impl TraceModel {
    /// The buffer after events were recorded one after the other, undisturbed.
    pub open spec fn all_recorded(self, events: Seq<FrameTraceEvent>) -> TraceModel
        decreases events.len(),
    {
        if events.len() == 0 {
            self
        } else {
            self.all_recorded(events.drop_last()).recorded(events.last())
        }
    }

    /// Every slot in use holds the event that got its number.
    pub open spec fn holds(self, events: Seq<FrameTraceEvent>) -> bool {
        forall|i: int|
            0 <= i < self.slots.len() && (#[trigger] self.slots[i]).sequence != 0 ==> {
                &&& self.slots[i].sequence <= events.len()
                &&& self.slots[i].event == Some(numbered(events, self.slots[i].sequence))
            }
    }
}

/// The event that was recorded as the one of a number.
pub open spec fn numbered(events: Seq<FrameTraceEvent>, sequence: u64) -> FrameTraceEvent {
    FrameTraceEvent { event_sequence_id: sequence, ..events[sequence - 1] }
}

proof fn recording_all(capacity: int, events: Seq<FrameTraceEvent>)
    requires
        capacity > 0,
        events.len() < SEQUENCE_LIMIT,
    ensures
        ({
            let model = TraceModel::empty(capacity).all_recorded(events);
            &&& model.wf()
            &&& model.quiet()
            &&& model.complete()
            &&& model.holds(events)
            &&& model.slots.len() == capacity
            &&& model.writer_count == 0
            &&& !model.stopped
            &&& model.next_event_sequence_id == events.len() + 1
        }),
    decreases events.len(),
{
    let model = TraceModel::empty(capacity).all_recorded(events);
    if events.len() == 0 {
        assert forall|i: int| 0 <= i < model.slots.len() implies model.slot_wf(i) by {}
    } else {
        let earlier = events.drop_last();
        let before = TraceModel::empty(capacity).all_recorded(earlier);
        recording_all(capacity, earlier);
        written_stays_wf(before, events.last());
        written_stays_complete(before, events.last());
        assert(model == before.written(events.last()));
        assert forall|i: int|
            0 <= i < model.slots.len() && (#[trigger] model.slots[i]).sequence != 0 implies {
            &&& model.slots[i].sequence <= events.len()
            &&& model.slots[i].event == Some(numbered(events, model.slots[i].sequence))
        } by {
            if i != before.next_slot() {
                assert(before.slots[i] == model.slots[i]);
                assert(before.slots[i].sequence <= earlier.len());
                assert(earlier[before.slots[i].sequence - 1] == events[before.slots[i].sequence
                    - 1]);
            }
        }
    }
}

/// What a snapshot holds of a buffer of some capacity into which events were
/// recorded one after the other: the newest events and the one that ends the trace,
/// as many as there is room for, by their numbers without a gap. All others were
/// overwritten, and nothing was given up.
pub proof fn a_snapshot_holds_the_newest_events(
    capacity: usize,
    events: Seq<FrameTraceEvent>,
    timestamp_ns: u64,
    run_id_hash: u64,
    snapshot: FrameTraceSnapshot,
)
    requires
        capacity > 0,
        events.len() < SEQUENCE_LIMIT - 1,
        TraceModel::empty(capacity as int).all_recorded(events).snapshot_is(
            timestamp_ns,
            run_id_hash,
            snapshot,
        ),
    ensures
        ({
            let kept = snapshot.events@;
            let written = events.push(
                FrameTraceEvent::spec_now(FrameTraceEventKind::TraceStopped, timestamp_ns),
            );
            &&& snapshot.run_id_hash == run_id_hash
            &&& snapshot.capacity == capacity
            &&& kept.len() == min_of(written.len() as int, capacity as int)
            &&& forall|i: int|
                0 <= i < kept.len() ==> #[trigger] kept[i] == numbered(
                    written,
                    (written.len() - kept.len() + i + 1) as u64,
                )
            &&& snapshot.overwritten_events == written.len() - kept.len()
            &&& snapshot.superseded_writes == 0
            &&& snapshot.contended_writes == 0
        }),
{
    let model = TraceModel::empty(capacity as int).all_recorded(events);
    let ending = FrameTraceEvent::spec_now(FrameTraceEventKind::TraceStopped, timestamp_ns);
    let kept = snapshot.events@;
    let written = events.push(ending);
    let after = model.stopped_at(timestamp_ns);
    recording_all(capacity as int, events);
    assert forall|i: int| 0 <= i < kept.len() implies #[trigger] kept[i] == numbered(
        written,
        (written.len() - kept.len() + i + 1) as u64,
    ) by {
        assert(in_a_slot(after.slots, kept[i]));
        let k = choose|k: int|
            0 <= k < after.slots.len() && (#[trigger] after.slots[k]).sequence != 0
                && after.slots[k].event == Some(kept[i]);
        assert(kept[i].event_sequence_id == model.next_event_sequence_id + 1 - kept.len() + i);
        if k != model.next_slot() {
            assert(after.slots[k] == model.slots[k]);
            let s = model.slots[k].sequence;
            assert(model.slots[k].event == Some(numbered(events, s)));
            assert(written[s - 1] == events[s - 1]);
        }
    }
}

/// A buffer that was stopped records nothing more and has no other snapshot. The one
/// that it has ascends by the numbers of its events and ends with the event that
/// ends the trace, however many writers there were before.
pub proof fn a_stopped_buffer_stays_as_it_is(
    model: TraceModel,
    timestamp_ns: u64,
    run_id_hash: u64,
    snapshot: FrameTraceSnapshot,
    event: FrameTraceEvent,
    later_ns: u64,
)
    requires
        model.wf(),
        !model.stopped,
        model.snapshot_is(timestamp_ns, run_id_hash, snapshot),
    ensures
        ({
            let after = model.stopped_at(timestamp_ns);
            &&& !after.accepts()
            &&& after.recorded(event) == after
            &&& after.snapshot_claimed
            &&& after.stopped_at(later_ns) == after
            &&& snapshot.events@.last().kind == FrameTraceEventKind::TraceStopped
            &&& forall|i: int, j: int|
                0 <= i < j < snapshot.events@.len() ==> (
                #[trigger] snapshot.events@[i]).event_sequence_id < (
                #[trigger] snapshot.events@[j]).event_sequence_id
        }),
{
}

proof fn occupied_slot(model: TraceModel, i: int)
    requires
        model.wf(),
        model.complete(),
        0 <= i < model.slots.len(),
        i < model.next_event_sequence_id - 1,
    ensures
        model.slots[i].sequence != 0,
{
    let next = model.next_event_sequence_id as int;
    let capacity = model.slots.len() as int;
    if capacity <= next - 1 {
        let newest = newest_number_of_slot(i, next, capacity);
        assert(model.slots[slot_of(newest, capacity)].sequence == newest);
    } else {
        let sequence = (i + 1) as u64;
        vstd::arithmetic::div_mod::lemma_small_mod(i as nat, capacity as nat);
        assert(model.slots[slot_of(sequence, capacity)].sequence == sequence);
    }
}

proof fn last_is_the_ending(
    before: TraceModel,
    ending: FrameTraceEvent,
    events: Seq<FrameTraceEvent>,
)
    requires
        before.wf(),
        before.quiet(),
        before.has_room(),
        collects(events, before.written(ending).slots),
    ensures
        events.len() > 0,
        events.last() == (FrameTraceEvent {
            event_sequence_id: before.next_event_sequence_id,
            ..ending
        }),
{
    let model = before.written(ending);
    let k = before.next_slot();
    written_stays_wf(before, ending);
    vstd::arithmetic::div_mod::lemma_mod_bound(
        before.next_event_sequence_id - 1,
        before.slots.len() as int,
    );
    let numbered = FrameTraceEvent {
        event_sequence_id: before.next_event_sequence_id,
        ..ending
    };
    assert(model.slots[k].event == Some(numbered));
    assert(events.contains(numbered));
    let at = choose|at: int| 0 <= at < events.len() && events[at] == numbered;
    if at < events.len() - 1 {
        let last = events.len() - 1;
        assert(events[at].event_sequence_id < events[last].event_sequence_id);
        assert(in_a_slot(model.slots, events[last]));
        let i = choose|i: int|
            0 <= i < model.slots.len() && (#[trigger] model.slots[i]).sequence != 0
                && model.slots[i].event == Some(events[last]);
        assert(model.slot_wf(i));
    }
}

} // verus!
