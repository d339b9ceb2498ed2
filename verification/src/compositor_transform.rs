//! Transforms that a compositor reads while an application keeps updating them.
//!
//! A transform is published under a generation: even while it can be read, odd
//! while a writer is replacing it. A reader that finds the same even generation
//! before and after it read the parts has read one published transform.
use std::collections::VecDeque;

use vstd::prelude::*;

use crate::float_bits::{Float32, FLOAT32_ONE};
use crate::geometry::Point;
use crate::time::TimePoint;

verus! {

/// The number of update times that a transform remembers.
pub const REMEMBERED_UPDATES: usize = 128;

/// A uniform scale with a translation in logical pixels.
#[derive(Clone, Copy, Debug, PartialEq, Eq, Structural)]
pub struct RasterCompositorTransform {
    pub scale: Float32,
    pub translation: Point,
}

impl RasterCompositorTransform {
    /// The scale is finite and above zero, and the translation is finite.
    pub open spec fn valid(self) -> bool {
        self.scale.positive_finite() && self.translation.x.finite() && self.translation.y.finite()
    }

    /// Both transforms have the same numbers.
    pub open spec fn same_numbers(self, other: RasterCompositorTransform) -> bool {
        &&& self.scale.equals(other.scale)
        &&& self.translation.x.equals(other.translation.x)
        &&& self.translation.y.equals(other.translation.y)
    }

    /// The transform that changes nothing.
    pub open spec fn identity() -> RasterCompositorTransform {
        RasterCompositorTransform {
            scale: Float32 { bits: FLOAT32_ONE },
            translation: Point { x: Float32::spec_zero(), y: Float32::spec_zero() },
        }
    }

    /// A transform, where the scale is finite and above zero and the translation
    /// is finite.
    pub fn new(scale: Float32, translation: Point) -> (transform: Option<
        RasterCompositorTransform,
    >)
        ensures
            transform == if (RasterCompositorTransform { scale, translation }).valid() {
                Some(RasterCompositorTransform { scale, translation })
            } else {
                None
            },
    {
        if scale.is_positive_finite() && translation.x.is_finite() && translation.y.is_finite() {
            Some(RasterCompositorTransform { scale, translation })
        } else {
            None
        }
    }

    /// Whether both transforms have the same numbers.
    pub fn is_same(self, other: RasterCompositorTransform) -> (same: bool)
        ensures
            same == self.same_numbers(other),
    {
        self.scale.is_equal(other.scale) && self.translation.x.is_equal(other.translation.x)
            && self.translation.y.is_equal(other.translation.y)
    }
}

impl Default for RasterCompositorTransform {
    fn default() -> (transform: RasterCompositorTransform)
        ensures
            transform == RasterCompositorTransform::identity(),
            transform.valid(),
    {
        RasterCompositorTransform {
            scale: Float32 { bits: FLOAT32_ONE },
            translation: Point { x: Float32::zero(), y: Float32::zero() },
        }
    }
}

/// Gives out identifiers, each one above the one before.
#[derive(Debug)]
pub struct CompositorIds {
    pub next: u64,
}

impl CompositorIds {
    /// The first identifier is one.
    pub fn new() -> (ids: CompositorIds)
        ensures
            ids.next == 1,
    {
        CompositorIds { next: 1 }
    }
}

/// When a revision was published.
#[derive(Clone, Copy, Debug, PartialEq, Eq, Structural)]
pub struct RevisionTime {
    pub revision: u64,
    pub updated_at: TimePoint,
}

/// A transform under its identifier, with the times of its latest updates.
#[derive(Debug)]
pub struct RasterCompositorTransformHandle {
    pub id: u64,
    pub generation: u64,
    pub current: RasterCompositorTransform,
    pub updates: VecDeque<RevisionTime>,
}

/// The contents of a handle.
pub struct TransformModel {
    pub id: u64,
    pub generation: u64,
    pub current: RasterCompositorTransform,
    pub updates: Seq<RevisionTime>,
}

/// The last items of a sequence, as many as are remembered.
pub open spec fn remembered(updates: Seq<RevisionTime>) -> Seq<RevisionTime> {
    if updates.len() > REMEMBERED_UPDATES {
        updates.skip(updates.len() - REMEMBERED_UPDATES)
    } else {
        updates
    }
}

/// The time last noted for a revision.
pub open spec fn time_of(updates: Seq<RevisionTime>, revision: u64) -> Option<TimePoint>
    decreases updates.len(),
{
    if updates.len() == 0 {
        None
    } else if updates.last().revision == revision {
        Some(updates.last().updated_at)
    } else {
        time_of(updates.drop_last(), revision)
    }
}

/// The number of revisions after which they begin anew.
pub const REVISION_COUNT: u64 = 0x8000_0000_0000_0000;

/// The revision so many updates before another one.
pub open spec fn revision_before(revision: u64, back: int) -> int {
    if revision >= back {
        revision - back
    } else {
        revision - back + REVISION_COUNT
    }
}

/// Notes when a revision was published, and forgets the oldest times beyond those that
/// are remembered.
pub fn note_update(updates: &mut VecDeque<RevisionTime>, revision: u64, updated_at: TimePoint)
    ensures
        final(updates)@ == remembered(old(updates)@.push(RevisionTime { revision, updated_at })),
{
    updates.push_back(RevisionTime { revision, updated_at });
    let ghost noted = updates@;
    let ghost mut gone: int = 0;
    proof {
        assert(noted =~= old(updates)@.push(RevisionTime { revision, updated_at }));
    }
    while updates.len() > REMEMBERED_UPDATES
        invariant
            0 <= gone <= noted.len(),
            updates@ =~= noted.skip(gone),
            gone > 0 ==> updates@.len() >= REMEMBERED_UPDATES,
        decreases updates@.len(),
    {
        updates.pop_front();
        proof {
            gone = gone + 1;
        }
    }
    proof {
        assert(updates@ =~= remembered(noted));
    }
}

/// When a revision was published, as long as that is remembered.
pub fn find_time(updates: &VecDeque<RevisionTime>, revision: u64) -> (time: Option<TimePoint>)
    ensures
        time == time_of(updates@, revision),
{
    let mut i: usize = updates.len();
    proof {
        assert(updates@.take(i as int) =~= updates@);
    }
    while i > 0
        invariant
            i <= updates@.len(),
            time_of(updates@, revision) == time_of(updates@.take(i as int), revision),
        decreases i,
    {
        i = i - 1;
        proof {
            let part = updates@.take(i + 1);
            assert(part.last() == updates@[i as int]);
            assert(part.drop_last() =~= updates@.take(i as int));
        }
        if updates[i].revision == revision {
            return Some(updates[i].updated_at);
        }
    }
    None
}

/// The generation after `steps` more, as a counter of 64 bits counts.
pub open spec fn generation_after(generation: u64, steps: int) -> u64 {
    if generation + steps > u64::MAX {
        (generation + steps - u64::MAX - 1) as u64
    } else {
        (generation + steps) as u64
    }
}

impl TransformModel {
    /// The transform can be read and is valid, and the times noted are those of the
    /// current revision and of the ones right before it: of all that there were, or of
    /// as many as are remembered.
    pub open spec fn wf(self) -> bool {
        &&& self.generation % 2 == 0
        &&& self.current.valid()
        &&& 0 < self.updates.len() <= REMEMBERED_UPDATES
        &&& self.updates.len() == REMEMBERED_UPDATES || self.updates.len() == self.revision() + 1
        &&& forall|i: int|
            0 <= i < self.updates.len() ==> (#[trigger] self.updates[i]).revision
                == revision_before(self.revision(), self.updates.len() - 1 - i)
    }

    /// The current revision.
    pub open spec fn revision(self) -> u64 {
        self.generation / 2
    }

    /// Whether an update changes anything: it is valid and has other numbers.
    pub open spec fn takes(self, transform: RasterCompositorTransform) -> bool {
        transform.valid() && !self.current.same_numbers(transform)
    }

    /// After an update that changes something.
    pub open spec fn updated(
        self,
        transform: RasterCompositorTransform,
        updated_at: TimePoint,
    ) -> TransformModel {
        let generation = generation_after(self.generation, 2);
        TransformModel {
            generation,
            current: transform,
            updates: remembered(
                self.updates.push(RevisionTime { revision: generation / 2, updated_at }),
            ),
            ..self
        }
    }
}

impl RasterCompositorTransformHandle {
    /// The contents.
    pub open spec fn view(&self) -> TransformModel {
        TransformModel {
            id: self.id,
            generation: self.generation,
            current: self.current,
            updates: self.updates@,
        }
    }

    /// A handle under a new identifier, where the transform is valid. Revision zero
    /// is noted with the time of creation.
    pub fn new(
        ids: &mut CompositorIds,
        initial: RasterCompositorTransform,
        created_at: TimePoint,
    ) -> (handle: Option<RasterCompositorTransformHandle>)
        ensures
            handle is Some <==> initial.valid(),
            handle is Some ==> handle->0@ == (TransformModel {
                id: old(ids).next,
                generation: 0,
                current: initial,
                updates: seq![RevisionTime { revision: 0, updated_at: created_at }],
            }) && handle->0@.wf(),
            final(ids).next == if initial.valid() {
                generation_after(old(ids).next, 1)
            } else {
                old(ids).next
            },
    {
        let initial = match RasterCompositorTransform::new(initial.scale, initial.translation) {
            Some(initial) => initial,
            None => {
                return None;
            },
        };
        let id: u64 = ids.next;
        ids.next = id.wrapping_add(1);
        let mut updates: VecDeque<RevisionTime> = VecDeque::new();
        updates.push_back(RevisionTime { revision: 0, updated_at: created_at });
        proof {
            assert(updates@ =~= seq![RevisionTime { revision: 0, updated_at: created_at }]);
        }
        Some(RasterCompositorTransformHandle { id, generation: 0, current: initial, updates })
    }

    /// Publishes a transform with the present time; see `update_at`.
    pub fn update(&mut self, transform: RasterCompositorTransform, now: TimePoint) -> (updated: bool)
        requires
            old(self)@.wf(),
        ensures
            updated == old(self)@.takes(transform),
            final(self)@ == if updated {
                old(self)@.updated(transform, now)
            } else {
                old(self)@
            },
            final(self)@.wf(),
    {
        self.update_at(transform, now)
    }

    /// Publishes a transform under the next revision and notes when the input that
    /// led to it was observed. An invalid transform and one with the numbers of the
    /// current one leave everything as it is.
    pub fn update_at(
        &mut self,
        transform: RasterCompositorTransform,
        updated_at: TimePoint,
    ) -> (updated: bool)
        requires
            old(self)@.wf(),
        ensures
            updated == old(self)@.takes(transform),
            final(self)@ == if updated {
                old(self)@.updated(transform, updated_at)
            } else {
                old(self)@
            },
            final(self)@.wf(),
    {
        let ghost before = self@;
        let transform = match RasterCompositorTransform::new(
            transform.scale,
            transform.translation,
        ) {
            Some(transform) => transform,
            None => {
                return false;
            },
        };
        if self.snapshot().1.is_same(transform) {
            return false;
        }
        let generation: u64 = self.generation;
        self.generation = generation.wrapping_add(1);
        self.current = transform;
        let revision: u64 = generation.wrapping_add(2) / 2;
        note_update(&mut self.updates, revision, updated_at);
        self.generation = generation.wrapping_add(2);
        proof {
            updating_stays_wf(before, transform, updated_at);
        }
        true
    }

    /// The current revision with its transform.
    pub fn snapshot(&self) -> (result: (u64, RasterCompositorTransform))
        ensures
            result == (self@.revision(), self@.current),
    {
        (self.generation / 2, self.current)
    }

    /// The identifier.
    pub fn id(&self) -> (id: u64)
        ensures
            id == self@.id,
    {
        self.id
    }

    /// When a revision was published, as long as that is remembered.
    pub fn updated_at(&self, revision: u64) -> (time: Option<TimePoint>)
        ensures
            time == time_of(self@.updates, revision),
    {
        find_time(&self.updates, revision)
    }
}

impl PartialEq for RasterCompositorTransformHandle {
    fn eq(&self, other: &Self) -> (equal: bool) {
        self.id == other.id
    }
}

impl vstd::std_specs::cmp::PartialEqSpecImpl for RasterCompositorTransformHandle {
    open spec fn obeys_eq_spec() -> bool {
        true
    }

    open spec fn eq_spec(&self, other: &Self) -> bool {
        self.id == other.id
    }
}

impl Eq for RasterCompositorTransformHandle {

}

proof fn updating_stays_wf(
    model: TransformModel,
    transform: RasterCompositorTransform,
    updated_at: TimePoint,
)
    requires
        model.wf(),
        transform.valid(),
    ensures
        model.updated(transform, updated_at).wf(),
{
    let after = model.updated(transform, updated_at);
    let noted = model.updates.push(RevisionTime { revision: after.revision(), updated_at });
    let gone = noted.len() - after.updates.len();
    assert forall|i: int| 0 <= i < after.updates.len() implies (
    #[trigger] after.updates[i]).revision == revision_before(
        after.revision(),
        after.updates.len() - 1 - i,
    ) by {
        assert(after.updates[i] == noted[i + gone]);
        if i + gone < model.updates.len() {
            assert(noted[i + gone] == model.updates[i + gone]);
        }
    }
}

proof fn times_are_found(model: TransformModel, n: int, i: int)
    requires
        model.wf(),
        0 <= i < n <= model.updates.len(),
    ensures
        time_of(model.updates.take(n), model.updates[i].revision) == Some(
            model.updates[i].updated_at,
        ),
    decreases n,
{
    let part = model.updates.take(n);
    assert(part.last() == model.updates[n - 1]);
    if i < n - 1 {
        assert(part.drop_last() =~= model.updates.take(n - 1));
        assert(model.updates[i].revision != model.updates[n - 1].revision);
        times_are_found(model, n - 1, i);
    }
}

/// The time of every revision noted is found, and an update leaves those of the
/// latest revisions available: of the present one and of as many before it as are
/// remembered besides the new one.
pub proof fn earlier_times_stay_available(
    model: TransformModel,
    transform: RasterCompositorTransform,
    updated_at: TimePoint,
    back: int,
)
    requires
        model.wf(),
        model.takes(transform),
        0 <= back < model.updates.len(),
    ensures
        ({
            let after = model.updated(transform, updated_at);
            let earlier = revision_before(model.revision(), back) as u64;
            &&& time_of(model.updates, earlier) == Some(
                model.updates[model.updates.len() - 1 - back].updated_at,
            )
            &&& back < REMEMBERED_UPDATES - 1 ==> time_of(after.updates, earlier) == time_of(
                model.updates,
                earlier,
            )
            &&& after.updates.len() == if model.updates.len() < REMEMBERED_UPDATES {
                model.updates.len() + 1
            } else {
                REMEMBERED_UPDATES as nat
            }
        }),
{
    let after = model.updated(transform, updated_at);
    let place = model.updates.len() - 1 - back;
    let noted = model.updates.push(RevisionTime { revision: after.revision(), updated_at });
    let gone = noted.len() - after.updates.len();
    assert(model.updates.take(model.updates.len() as int) =~= model.updates);
    times_are_found(model, model.updates.len() as int, place);
    assert(model.updates[place].revision == revision_before(model.revision(), back));
    if back < REMEMBERED_UPDATES - 1 {
        updating_stays_wf(model, transform, updated_at);
        assert(after.updates[place - gone] == noted[place]);
        assert(after.updates.take(after.updates.len() as int) =~= after.updates);
        times_are_found(after, after.updates.len() as int, place - gone);
    }
}

/// The times of the latest revisions are noted: of the present one, and of those before
/// it that there were, as far as they are remembered.
pub proof fn latest_revisions_are_noted(model: TransformModel, back: int)
    requires
        model.wf(),
        0 <= back < REMEMBERED_UPDATES,
        back <= model.revision(),
    ensures
        time_of(model.updates, (model.revision() - back) as u64) is Some,
{
    let place = model.updates.len() - 1 - back;
    assert(model.updates[place].revision == revision_before(model.revision(), back));
    assert(model.updates.take(model.updates.len() as int) =~= model.updates);
    times_are_found(model, model.updates.len() as int, place);
}

/// What was published is read back: after an update the snapshot is the new
/// transform under the next revision, and the time of that revision is the time
/// given.
pub proof fn an_update_is_read_back(
    model: TransformModel,
    transform: RasterCompositorTransform,
    updated_at: TimePoint,
)
    requires
        model.wf(),
        model.takes(transform),
    ensures
        ({
            let after = model.updated(transform, updated_at);
            &&& after.wf()
            &&& after.current == transform
            &&& model.generation < u64::MAX - 1 ==> after.revision() == model.revision() + 1
            &&& time_of(after.updates, after.revision()) == Some(updated_at)
        }),
{
    let after = model.updated(transform, updated_at);
    let noted = model.updates.push(RevisionTime { revision: after.revision(), updated_at });
    assert(after.updates.last() == noted.last());
    updating_stays_wf(model, transform, updated_at);
}

/// An update is not taken twice: the same numbers leave the revision alone.
pub proof fn an_identical_update_is_skipped(
    model: TransformModel,
    transform: RasterCompositorTransform,
    updated_at: TimePoint,
)
    requires
        model.wf(),
        model.takes(transform),
    ensures
        !model.updated(transform, updated_at).takes(transform),
{
}

/// The parts of a transform as separate words in shared memory.
#[derive(Clone, Copy, Debug, PartialEq, Eq, Structural)]
pub struct SharedTransform {
    pub generation: u64,
    pub scale: Float32,
    pub x: Float32,
    pub y: Float32,
}

/// One atomic step of any writer: begin to write, which takes an even generation
/// to an odd one; store a part, while the generation is odd; publish, which takes
/// it on to the next even one. Steps of other code change nothing.
pub open spec fn writer_step(before: SharedTransform, after: SharedTransform) -> bool {
    ||| before == after
    ||| before.generation % 2 == 0 && before.generation < u64::MAX && after == (SharedTransform {
        generation: (before.generation + 1) as u64,
        ..before
    })
    ||| before.generation % 2 == 1 && after.generation == before.generation
    ||| before.generation % 2 == 1 && before.generation < u64::MAX && after == (SharedTransform {
        generation: (before.generation + 1) as u64,
        ..before
    })
}

/// An execution: every state follows from the one before by a step.
pub open spec fn writer_execution(states: Seq<SharedTransform>) -> bool {
    forall|i: int|
        0 <= i < states.len() - 1 ==> writer_step(#[trigger] states[i], states[i + 1])
}

/// Whatever writers do, the generation never falls, so that what is read later never
/// has a smaller revision.
pub proof fn generations_only_rise(states: Seq<SharedTransform>, i: int, j: int)
    requires
        writer_execution(states),
        0 <= i <= j < states.len(),
    ensures
        states[i].generation <= states[j].generation,
        states[i].generation / 2 <= states[j].generation / 2,
    decreases j - i,
{
    if i < j {
        generations_only_rise(states, i, j - 1);
        assert(writer_step(states[j - 1], states[j - 1 + 1]));
    }
}

proof fn unchanged_between(states: Seq<SharedTransform>, i: int, j: int, k: int)
    requires
        writer_execution(states),
        0 <= i <= j <= k < states.len(),
        states[i].generation % 2 == 0,
        states[i].generation == states[k].generation,
    ensures
        states[i] == states[j],
    decreases j - i,
{
    if i < j {
        unchanged_between(states, i, j - 1, k);
        generations_only_rise(states, j, k);
        generations_only_rise(states, i, j);
        assert(writer_step(states[j - 1], states[j - 1 + 1]));
    }
}

/// A reader never sees parts of two transforms: where it finds one even
/// generation before and after, whatever the writers did in between, the three
/// parts it read are those published under that generation.
pub proof fn snapshots_never_tear(
    states: Seq<SharedTransform>,
    before: int,
    scale: int,
    x: int,
    y: int,
    after: int,
)
    requires
        writer_execution(states),
        0 <= before <= scale <= x <= y <= after < states.len(),
        states[before].generation % 2 == 0,
        states[before].generation == states[after].generation,
    ensures
        states[scale].scale == states[before].scale,
        states[x].x == states[before].x,
        states[y].y == states[before].y,
        states[after] == states[before],
{
    unchanged_between(states, before, scale, after);
    unchanged_between(states, before, x, after);
    unchanged_between(states, before, y, after);
    unchanged_between(states, before, after, after);
}

/// Successive readings never fall in revision: one that began after another had ended
/// has a revision that is at least as high.
pub proof fn successive_snapshots_never_fall(
    states: Seq<SharedTransform>,
    first_before: int,
    first_after: int,
    second_before: int,
    second_after: int,
)
    requires
        writer_execution(states),
        0 <= first_before <= first_after <= second_before <= second_after < states.len(),
        states[first_before].generation == states[first_after].generation,
        states[second_before].generation == states[second_after].generation,
    ensures
        states[first_after].generation / 2 <= states[second_after].generation / 2,
{
    generations_only_rise(states, first_after, second_after);
}

/// Shared memory with the writer that holds it: what it is writing, which parts it has
/// stored, and all transforms published so far, the first one included.
pub struct WrittenTransform {
    pub shared: SharedTransform,
    pub pending: RasterCompositorTransform,
    pub scale_stored: bool,
    pub x_stored: bool,
    pub y_stored: bool,
    pub published: Seq<RasterCompositorTransform>,
}

impl SharedTransform {
    /// The parts as one transform.
    pub open spec fn transform(self) -> RasterCompositorTransform {
        RasterCompositorTransform {
            scale: self.scale,
            translation: Point { x: self.x, y: self.y },
        }
    }
}

impl WrittenTransform {
    /// Before the first update.
    pub open spec fn initial(self) -> bool {
        &&& self.shared.generation == 0
        &&& self.published == seq![self.shared.transform()]
    }

    /// A writer begins to write a transform.
    pub open spec fn begun(self, transform: RasterCompositorTransform) -> WrittenTransform {
        WrittenTransform {
            shared: SharedTransform {
                generation: (self.shared.generation + 1) as u64,
                ..self.shared
            },
            pending: transform,
            scale_stored: false,
            x_stored: false,
            y_stored: false,
            ..self
        }
    }

    /// The writer has stored the scale.
    pub open spec fn with_scale(self) -> WrittenTransform {
        WrittenTransform {
            shared: SharedTransform { scale: self.pending.scale, ..self.shared },
            scale_stored: true,
            ..self
        }
    }

    /// The writer has stored the horizontal translation.
    pub open spec fn with_x(self) -> WrittenTransform {
        WrittenTransform {
            shared: SharedTransform { x: self.pending.translation.x, ..self.shared },
            x_stored: true,
            ..self
        }
    }

    /// The writer has stored the vertical translation.
    pub open spec fn with_y(self) -> WrittenTransform {
        WrittenTransform {
            shared: SharedTransform { y: self.pending.translation.y, ..self.shared },
            y_stored: true,
            ..self
        }
    }

    /// The writer has published what it wrote.
    pub open spec fn with_publication(self) -> WrittenTransform {
        WrittenTransform {
            shared: SharedTransform {
                generation: (self.shared.generation + 1) as u64,
                ..self.shared
            },
            published: self.published.push(self.pending),
            ..self
        }
    }

    /// One step: a writer begins where nobody is writing; the writer that has begun
    /// stores a part, or publishes once all parts are stored; or nothing happens here.
    pub open spec fn steps_to(self, after: WrittenTransform) -> bool {
        let generation = self.shared.generation;
        let writing = generation % 2 == 1;
        ||| after == self
        ||| !writing && generation < u64::MAX - 1 && after == self.begun(after.pending)
        ||| writing && after == self.with_scale()
        ||| writing && after == self.with_x()
        ||| writing && after == self.with_y()
        ||| writing && generation < u64::MAX && self.scale_stored && self.x_stored && self.y_stored
            && after == self.with_publication()
    }

    /// Where nobody is writing the parts are those published last; the revision counts
    /// the publications; and what a writer has stored is of its own transform.
    pub open spec fn in_order(self) -> bool {
        let shared = self.shared;
        &&& self.published.len() == shared.generation / 2 + 1
        &&& shared.generation % 2 == 0 ==> shared.transform() == self.published.last()
        &&& shared.generation % 2 == 1 ==> {
            &&& self.scale_stored ==> shared.scale == self.pending.scale
            &&& self.x_stored ==> shared.x == self.pending.translation.x
            &&& self.y_stored ==> shared.y == self.pending.translation.y
        }
    }
}

/// An execution of writers from the first transform on.
pub open spec fn writers_run(states: Seq<WrittenTransform>) -> bool {
    &&& states.len() > 0
    &&& states[0].initial()
    &&& forall|i: int| 0 <= i < states.len() - 1 ==> (#[trigger] states[i]).steps_to(states[i + 1])
}

proof fn writers_keep_order(states: Seq<WrittenTransform>, i: int)
    requires
        writers_run(states),
        0 <= i < states.len(),
    ensures
        states[i].in_order(),
    decreases i,
{
    if i > 0 {
        writers_keep_order(states, i - 1);
        assert(states[i - 1].steps_to(states[i - 1 + 1]));
    }
}

/// What a reader makes of the parts that it read between two readings of the
/// generation: nothing where that was odd or has changed, else the revision with the
/// transform.
pub open spec fn reading(
    generation_before: u64,
    scale: Float32,
    x: Float32,
    y: Float32,
    generation_after: u64,
) -> Option<(u64, RasterCompositorTransform)> {
    if generation_before % 2 == 0 && generation_before == generation_after {
        Some(
            (
                generation_after / 2,
                RasterCompositorTransform { scale, translation: Point { x, y } },
            ),
        )
    } else {
        None
    }
}

/// What is read is whole: whatever writers do meanwhile, it is the first transform or
/// one that a writer has published, never a mixture, and its revision is the number of
/// transforms published up to it.
pub proof fn snapshots_are_whole(
    states: Seq<WrittenTransform>,
    before: int,
    scale: int,
    x: int,
    y: int,
    after: int,
)
    requires
        writers_run(states),
        0 <= before <= scale <= x <= y <= after < states.len(),
    ensures
        ({
            let read = reading(
                states[before].shared.generation,
                states[scale].shared.scale,
                states[x].shared.x,
                states[y].shared.y,
                states[after].shared.generation,
            );
            let published = states[before].published;
            read matches Some((revision, transform)) ==> {
                &&& revision + 1 == published.len()
                &&& transform == published[revision as int]
            }
        }),
{
    if states[before].shared.generation % 2 == 0 && states[before].shared.generation
        == states[after].shared.generation {
        let shared = Seq::new(states.len(), |i: int| states[i].shared);
        assert forall|i: int| 0 <= i < shared.len() - 1 implies writer_step(
            #[trigger] shared[i],
            shared[i + 1],
        ) by {
            assert(states[i].steps_to(states[i + 1]));
        }
        snapshots_never_tear(shared, before, scale, x, y, after);
        assert(shared[before] == states[before].shared);
        assert(shared[scale] == states[scale].shared);
        assert(shared[x] == states[x].shared);
        assert(shared[y] == states[y].shared);
        writers_keep_order(states, before);
    }
}

/// The snapshot of a handle is what is read of its parts while nobody writes.
pub proof fn a_snapshot_is_a_reading(model: TransformModel)
    requires
        model.wf(),
    ensures
        reading(
            model.generation,
            model.current.scale,
            model.current.translation.x,
            model.current.translation.y,
            model.generation,
        ) == Some((model.revision(), model.current)),
{
}

/// An update of a handle that changes something is a run of a writer's steps on the
/// parts of the transform: from memory that holds the handle's transform they lead to
/// memory that holds the updated one, with that transform published last.
pub proof fn an_update_is_a_run_of_steps(
    model: TransformModel,
    memory: WrittenTransform,
    transform: RasterCompositorTransform,
    updated_at: TimePoint,
)
    requires
        model.wf(),
        model.takes(transform),
        model.generation < u64::MAX - 1,
        memory.shared.generation == model.generation,
        memory.shared.transform() == model.current,
    ensures
        ({
            let begun = memory.begun(transform);
            let scaled = begun.with_scale();
            let moved = scaled.with_x().with_y();
            let done = moved.with_publication();
            let after = model.updated(transform, updated_at);
            &&& memory.steps_to(begun)
            &&& begun.steps_to(scaled)
            &&& scaled.steps_to(scaled.with_x())
            &&& scaled.with_x().steps_to(moved)
            &&& moved.steps_to(done)
            &&& done.shared.generation == after.generation
            &&& done.shared.transform() == after.current
            &&& done.published == memory.published.push(transform)
        }),
{
}

/// Whether a reader may use the parts that it read between two readings of the
/// generation.
pub fn reading_is_coherent(generation_before: u64, generation_after: u64) -> (coherent: bool)
    ensures
        coherent == (generation_before % 2 == 0 && generation_before == generation_after),
{
    generation_before % 2 == 0 && generation_before == generation_after
}

/// What a reader makes of the parts that it read between two readings of the
/// generation.
pub fn coherent_snapshot(
    generation_before: u64,
    scale: Float32,
    x: Float32,
    y: Float32,
    generation_after: u64,
) -> (read: Option<(u64, RasterCompositorTransform)>)
    ensures
        read == reading(generation_before, scale, x, y, generation_after),
{
    if reading_is_coherent(generation_before, generation_after) {
        let transform = RasterCompositorTransform { scale, translation: Point { x, y } };
        Some((generation_after / 2, transform))
    } else {
        None
    }
}

/// Whether a writer may begin to write on the generation it found, and with which
/// generation it then publishes.
pub fn writing_may_begin(generation: u64) -> (published: Option<u64>)
    ensures
        published == if generation % 2 == 0 {
            Some(generation_after(generation, 2))
        } else {
            None
        },
{
    if generation % 2 == 0 {
        Some(generation.wrapping_add(2))
    } else {
        None
    }
}

} // verus!
