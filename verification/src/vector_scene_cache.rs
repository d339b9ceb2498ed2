//! Vector scenes that are painted once and replayed under another transform.
//!
//! A capture can be replayed as long as it shows the same content at the same scale
//! factor, covers what is to be shown, and can be mapped to the present transform.
//! What cannot be captured as a whole is not captured at all.
use std::collections::HashMap;

use vstd::prelude::*;

use crate::float_bits::{Float32, FLOAT32_ONE};
use crate::geometry::{Bounds, Point};
use crate::primitive::PaintOperation;
use crate::scene::{all_vector_paint, Scene};
use crate::trace_buffer::counted;

verus! {

/// The counters of a cache.
#[derive(Clone, Copy, Debug, PartialEq, Eq, Structural)]
pub struct VectorSceneCacheStats {
    /// Frames that replayed the capture.
    pub hits: u64,
    /// Frames that painted anew.
    pub misses: u64,
    /// Frames whose paint could not be captured.
    pub unsupported: u64,
    /// The operations of the latest paint that could be captured.
    pub primitive_count: usize,
}

impl VectorSceneCacheStats {
    /// All counters at zero.
    pub open spec fn zero() -> VectorSceneCacheStats {
        VectorSceneCacheStats { hits: 0, misses: 0, unsupported: 0, primitive_count: 0 }
    }
}

/// The counters of all caches that there are, and the identifiers given out.
pub struct VectorSceneCaches {
    pub next_id: u64,
    pub counters: HashMap<u64, VectorSceneCacheStats>,
}

impl VectorSceneCaches {
    /// The counters of each cache.
    pub open spec fn view(&self) -> Map<u64, VectorSceneCacheStats> {
        self.counters@
    }

    /// Every cache has an identifier that was given out before.
    pub open spec fn wf(&self) -> bool {
        forall|id: u64| #[trigger] self@.contains_key(id) ==> id < self.next_id
    }

    /// No caches. The first identifier is one.
    pub fn new() -> (caches: VectorSceneCaches)
        ensures
            caches.wf(),
            caches.next_id == 1,
            caches@ == Map::<u64, VectorSceneCacheStats>::empty(),
    {
        VectorSceneCaches { next_id: 1, counters: HashMap::new() }
    }

    fn stats_of(&self, id: u64) -> (stats: VectorSceneCacheStats)
        requires
            self@.contains_key(id),
        ensures
            stats == self@[id],
    {
        match self.counters.get(&id) {
            Some(stats) => *stats,
            None => VectorSceneCacheStats {
                hits: 0,
                misses: 0,
                unsupported: 0,
                primitive_count: 0,
            },
        }
    }
}

/// A handle of a cache. Its clones are handles of the same cache.
#[derive(Clone, Copy, Debug, PartialEq, Eq, Structural)]
pub struct VectorSceneCacheHandle {
    pub id: u64,
}

impl VectorSceneCacheHandle {
    /// A cache under a new identifier, with all counters at zero.
    pub fn new(caches: &mut VectorSceneCaches) -> (handle: VectorSceneCacheHandle)
        requires
            old(caches).wf(),
            old(caches).next_id < u64::MAX,
        ensures
            handle.id == old(caches).next_id,
            !old(caches)@.contains_key(handle.id),
            final(caches).next_id == old(caches).next_id + 1,
            final(caches)@ == old(caches)@.insert(handle.id, VectorSceneCacheStats::zero()),
            final(caches).wf(),
    {
        let id: u64 = caches.next_id;
        caches.next_id = id + 1;
        caches.counters.insert(
            id,
            VectorSceneCacheStats { hits: 0, misses: 0, unsupported: 0, primitive_count: 0 },
        );
        VectorSceneCacheHandle { id }
    }

    /// The counters.
    pub fn stats(&self, caches: &VectorSceneCaches) -> (stats: VectorSceneCacheStats)
        requires
            caches@.contains_key(self.id),
        ensures
            stats == caches@[self.id],
    {
        caches.stats_of(self.id)
    }

    /// Forgets the counters of a cache whose last handle goes.
    pub fn forget(self, caches: &mut VectorSceneCaches)
        requires
            old(caches).wf(),
        ensures
            final(caches).next_id == old(caches).next_id,
            final(caches)@ == old(caches)@.remove(self.id),
            final(caches).wf(),
    {
        caches.counters.remove(&self.id);
    }
}

/// Handles made separately are of separate caches: the later one has another
/// identifier, whatever became of the earlier cache.
pub proof fn separate_handles_differ(
    caches: VectorSceneCaches,
    earlier: VectorSceneCacheHandle,
    later: VectorSceneCacheHandle,
)
    requires
        earlier.id < caches.next_id,
        later.id == caches.next_id,
    ensures
        earlier != later,
{
}

/// What is counted through a handle shows in all of its clones and in no other handle.
pub proof fn clones_share_their_counters(
    caches: Map<u64, VectorSceneCacheStats>,
    handle: VectorSceneCacheHandle,
    other: VectorSceneCacheHandle,
    stats: VectorSceneCacheStats,
)
    requires
        caches.contains_key(handle.id),
        caches.contains_key(other.id),
    ensures
        ({
            let after = caches.insert(handle.id, stats);
            &&& after.contains_key(handle.id) && after.contains_key(other.id)
            &&& other == handle ==> after[other.id] == after[handle.id] && after[other.id] == stats
            &&& other != handle ==> after[other.id] == caches[other.id]
        }),
{
}

/// Which content it is.
#[derive(Clone, Copy, Debug, PartialEq, Eq, Hash, Structural)]
pub struct VectorSceneRevision(pub u64);

/// The part of the content that a capture covers.
#[derive(Clone, Copy, Debug, PartialEq, Eq, Structural)]
pub struct VectorSceneCoverage(pub Bounds);

impl VectorSceneCoverage {
    /// Whether a viewport lies inside, edges included.
    pub fn contains(self, viewport: Bounds) -> (result: bool)
        ensures
            result == self.0.encloses(viewport),
    {
        self.0.contains_bounds(viewport)
    }
}

/// A uniform scale with a translation in logical pixels.
#[derive(Clone, Copy, Debug, PartialEq, Eq, Structural)]
pub struct VectorSceneTransform {
    pub scale: Float32,
    pub translation: Point,
}

impl VectorSceneTransform {
    /// The scale is finite and above zero, and the translation is finite.
    pub open spec fn valid(self) -> bool {
        self.scale.positive_finite() && self.translation.x.finite() && self.translation.y.finite()
    }

    /// The transform that changes nothing.
    pub open spec fn identity() -> VectorSceneTransform {
        VectorSceneTransform {
            scale: Float32 { bits: FLOAT32_ONE },
            translation: Point { x: Float32::spec_zero(), y: Float32::spec_zero() },
        }
    }

    /// A transform.
    pub fn new(scale: Float32, translation: Point) -> (transform: VectorSceneTransform)
        ensures
            transform == (VectorSceneTransform { scale, translation }),
    {
        VectorSceneTransform { scale, translation }
    }

    /// Whether the scale is finite and above zero, and the translation finite.
    pub fn is_valid(self) -> (valid: bool)
        ensures
            valid == self.valid(),
    {
        self.scale.is_positive_finite() && self.translation.x.is_finite()
            && self.translation.y.is_finite()
    }

    /// The map from a capture under one transform to the present one, as `computed`
    /// from their quotient and difference; none where either transform is invalid, or
    /// the map is.
    pub open spec fn spec_relative_to(
        self,
        captured: VectorSceneTransform,
        computed: VectorSceneTransform,
    ) -> Option<VectorSceneTransform> {
        if self.valid() && captured.valid() && computed.valid() {
            Some(computed)
        } else {
            None
        }
    }

    /// The map from a capture under one transform to the present one, where all
    /// three are valid.
    pub fn relative_to(
        self,
        captured: VectorSceneTransform,
        computed: VectorSceneTransform,
    ) -> (relative: Option<VectorSceneTransform>)
        ensures
            relative == self.spec_relative_to(captured, computed),
    {
        if self.is_valid() && captured.is_valid() && computed.is_valid() {
            Some(computed)
        } else {
            None
        }
    }
}

impl Default for VectorSceneTransform {
    fn default() -> (transform: VectorSceneTransform)
        ensures
            transform == VectorSceneTransform::identity(),
    {
        VectorSceneTransform {
            scale: Float32 { bits: FLOAT32_ONE },
            translation: Point { x: Float32::zero(), y: Float32::zero() },
        }
    }
}

/// A capture.
pub struct VectorSceneState {
    pub revision: VectorSceneRevision,
    pub coverage: VectorSceneCoverage,
    pub captured_transform: VectorSceneTransform,
    pub scale_factor_bits: u32,
    pub operations: Vec<PaintOperation>,
    pub ready: bool,
}

/// The contents of a capture.
pub struct CaptureModel {
    pub revision: VectorSceneRevision,
    pub coverage: VectorSceneCoverage,
    pub captured_transform: VectorSceneTransform,
    pub scale_factor_bits: u32,
    pub operations: Seq<PaintOperation>,
    pub ready: bool,
}

impl VectorSceneState {
    /// The contents.
    pub open spec fn view(&self) -> CaptureModel {
        CaptureModel {
            revision: self.revision,
            coverage: self.coverage,
            captured_transform: self.captured_transform,
            scale_factor_bits: self.scale_factor_bits,
            operations: self.operations@,
            ready: self.ready,
        }
    }
}

impl Default for VectorSceneState {
    fn default() -> (state: VectorSceneState)
        ensures
            state@ == (CaptureModel {
                revision: VectorSceneRevision(0),
                coverage: VectorSceneCoverage(Bounds::spec_zero()),
                captured_transform: VectorSceneTransform::identity(),
                scale_factor_bits: 0,
                operations: Seq::empty(),
                ready: false,
            }),
    {
        VectorSceneState {
            revision: VectorSceneRevision(0),
            coverage: VectorSceneCoverage(Bounds::zero()),
            captured_transform: VectorSceneTransform::default(),
            scale_factor_bits: 0,
            operations: Vec::new(),
            ready: false,
        }
    }
}

/// An element whose paint is captured and replayed. The child is what is painted.
pub struct CachedVectorSceneTranslation<C> {
    pub handle: VectorSceneCacheHandle,
    pub revision: VectorSceneRevision,
    pub coverage: VectorSceneCoverage,
    pub viewport: Bounds,
    pub transform: VectorSceneTransform,
    pub child: Option<C>,
}

/// An element whose paint is captured and replayed under a translation.
pub fn cached_vector_scene_translation<C>(
    handle: VectorSceneCacheHandle,
    revision: VectorSceneRevision,
    coverage: VectorSceneCoverage,
    viewport: Bounds,
    translation: Point,
    child: C,
) -> (element: CachedVectorSceneTranslation<C>)
    ensures
        element == (CachedVectorSceneTranslation {
            handle,
            revision,
            coverage,
            viewport,
            transform: VectorSceneTransform { scale: Float32 { bits: FLOAT32_ONE }, translation },
            child: Some(child),
        }),
{
    cached_vector_scene_transform(
        handle,
        revision,
        coverage,
        viewport,
        VectorSceneTransform::new(Float32 { bits: FLOAT32_ONE }, translation),
        child,
    )
}

/// An element whose paint is captured and replayed under a transform.
pub fn cached_vector_scene_transform<C>(
    handle: VectorSceneCacheHandle,
    revision: VectorSceneRevision,
    coverage: VectorSceneCoverage,
    viewport: Bounds,
    transform: VectorSceneTransform,
    child: C,
) -> (element: CachedVectorSceneTranslation<C>)
    ensures
        element == (CachedVectorSceneTranslation {
            handle,
            revision,
            coverage,
            viewport,
            transform,
            child: Some(child),
        }),
{
    CachedVectorSceneTranslation {
        handle,
        revision,
        coverage,
        viewport,
        transform,
        child: Some(child),
    }
}

/// What the frame has recorded besides paint.
#[derive(Clone, Copy, Debug, PartialEq, Eq, Structural)]
pub struct FrameCounts {
    pub hitboxes: usize,
    pub deferred_draws: usize,
    pub mouse_listeners: usize,
    pub input_handlers: usize,
    pub cursor_styles: usize,
}

/// What prepaint has found.
#[derive(Clone, Copy, Debug)]
pub struct VectorScenePrepaintState {
    /// The map to replay the capture by; none where the child is to be painted.
    pub relative: Option<VectorSceneTransform>,
    /// Prepainting the child has left no hitboxes and no deferred draws behind.
    pub prepaint_safe: bool,
    /// There is a place to keep a capture in.
    pub cache_id_available: bool,
}

impl<C> CachedVectorSceneTranslation<C> {
    /// The map to replay a capture by, where it can be replayed.
    pub open spec fn replayable(
        self,
        capture: CaptureModel,
        scale_factor_bits: u32,
        computed: VectorSceneTransform,
    ) -> Option<VectorSceneTransform> {
        if capture.ready && capture.revision == self.revision && capture.scale_factor_bits
            == scale_factor_bits && capture.coverage.0.encloses(self.viewport) {
            self.transform.spec_relative_to(capture.captured_transform, computed)
        } else {
            None
        }
    }

    /// Whether the capture can be replayed, which counts as a hit, or the child is to
    /// be painted, which counts as a miss. `computed` is the quotient and difference
    /// of the present transform and that of the capture. Without a place to keep a
    /// capture there is none.
    pub fn prepaint(
        &self,
        caches: &mut VectorSceneCaches,
        capture: Option<&VectorSceneState>,
        scale_factor_bits: u32,
        computed: VectorSceneTransform,
    ) -> (relative: Option<VectorSceneTransform>)
        requires
            old(caches).wf(),
            old(caches)@.contains_key(self.handle.id),
        ensures
            relative == match capture {
                Some(capture) => self.replayable(capture@, scale_factor_bits, computed),
                None => None,
            },
            final(caches)@ == old(caches)@.insert(
                self.handle.id,
                if relative is Some {
                    VectorSceneCacheStats {
                        hits: counted(old(caches)@[self.handle.id].hits),
                        ..old(caches)@[self.handle.id]
                    }
                } else {
                    VectorSceneCacheStats {
                        misses: counted(old(caches)@[self.handle.id].misses),
                        ..old(caches)@[self.handle.id]
                    }
                },
            ),
            final(caches).next_id == old(caches).next_id,
            final(caches).wf(),
    {
        let mut stats = caches.stats_of(self.handle.id);
        if let Some(state) = capture {
            if state.ready && state.revision == self.revision && state.scale_factor_bits
                == scale_factor_bits && state.coverage.contains(self.viewport) {
                if let Some(relative) = self.transform.relative_to(
                    state.captured_transform,
                    computed,
                ) {
                    stats.hits = stats.hits.wrapping_add(1);
                    caches.counters.insert(self.handle.id, stats);
                    return Some(relative);
                }
            }
        }
        stats.misses = stats.misses.wrapping_add(1);
        caches.counters.insert(self.handle.id, stats);
        None
    }

    /// Whether what was painted between two places of a scene can be captured:
    /// nothing but vector paint, and nothing recorded besides it.
    pub open spec fn capturable(
        prepaint: VectorScenePrepaintState,
        operations: Seq<PaintOperation>,
        before: FrameCounts,
        after: FrameCounts,
    ) -> bool {
        &&& prepaint.prepaint_safe
        &&& all_vector_paint(operations)
        &&& before.mouse_listeners == after.mouse_listeners
        &&& before.input_handlers == after.input_handlers
        &&& before.cursor_styles == after.cursor_styles
    }

    /// What a capture holds after the child was painted: all operations, or none
    /// where they cannot be captured. It is ready where they can, there is a place to
    /// keep it in, and the transform is valid.
    pub open spec fn captured(
        self,
        prepaint: VectorScenePrepaintState,
        operations: Seq<PaintOperation>,
        before: FrameCounts,
        after: FrameCounts,
        scale_factor_bits: u32,
    ) -> CaptureModel {
        let capturable = Self::capturable(prepaint, operations, before, after);
        CaptureModel {
            revision: self.revision,
            coverage: self.coverage,
            captured_transform: self.transform,
            scale_factor_bits,
            operations: if capturable {
                operations
            } else {
                Seq::empty()
            },
            ready: prepaint.cache_id_available && self.transform.valid() && capturable,
        }
    }

    /// Captures what the child has painted between two places of a scene.
    pub fn capture(
        &self,
        caches: &mut VectorSceneCaches,
        prepaint: VectorScenePrepaintState,
        scene: &Scene,
        start: usize,
        end: usize,
        before: FrameCounts,
        after: FrameCounts,
        scale_factor_bits: u32,
    ) -> (state: VectorSceneState)
        requires
            start <= end <= scene@.operations.len(),
            old(caches).wf(),
            old(caches)@.contains_key(self.handle.id),
        ensures
            state@ == self.captured(
                prepaint,
                scene@.operations.subrange(start as int, end as int),
                before,
                after,
                scale_factor_bits,
            ),
            final(caches)@ == old(caches)@.insert(
                self.handle.id,
                VectorSceneCacheStats {
                    unsupported: if state@.ready {
                        old(caches)@[self.handle.id].unsupported
                    } else {
                        counted(old(caches)@[self.handle.id].unsupported)
                    },
                    primitive_count: if Self::capturable(
                        prepaint,
                        scene@.operations.subrange(start as int, end as int),
                        before,
                        after,
                    ) {
                        (end - start) as usize
                    } else {
                        old(caches)@[self.handle.id].primitive_count
                    },
                    ..old(caches)@[self.handle.id]
                },
            ),
            final(caches).next_id == old(caches).next_id,
            final(caches).wf(),
    {
        let mut stats = caches.stats_of(self.handle.id);
        let unchanged: bool = before.mouse_listeners == after.mouse_listeners
            && before.input_handlers == after.input_handlers && before.cursor_styles
            == after.cursor_styles;
        let mut operations: Vec<PaintOperation> = Vec::new();
        let mut captured: bool = false;
        if prepaint.prepaint_safe {
            if let Some(copied) = scene.clone_vector_paint(start, end) {
                if unchanged {
                    operations = copied;
                    captured = true;
                }
            }
        }
        let supported: bool = prepaint.cache_id_available && self.transform.is_valid() && captured;
        if !supported {
            stats.unsupported = stats.unsupported.wrapping_add(1);
        }
        if captured {
            stats.primitive_count = operations.len();
        }
        caches.counters.insert(self.handle.id, stats);
        VectorSceneState {
            revision: self.revision,
            coverage: self.coverage,
            captured_transform: self.transform,
            scale_factor_bits,
            operations,
            ready: supported,
        }
    }
}

/// Whether prepainting a child has left no hitboxes and no deferred draws behind.
pub fn prepaint_is_safe(before: FrameCounts, after: FrameCounts) -> (safe: bool)
    ensures
        safe == (before.hitboxes == after.hitboxes && before.deferred_draws
            == after.deferred_draws),
{
    before.hitboxes == after.hitboxes && before.deferred_draws == after.deferred_draws
}

/// A capture that is ready is replayed by the element that made it, under the
/// transform it was made with, as long as its coverage holds the viewport; and one
/// that is not ready never is.
pub proof fn a_capture_is_replayed_while_it_holds<C>(
    element: CachedVectorSceneTranslation<C>,
    prepaint: VectorScenePrepaintState,
    operations: Seq<PaintOperation>,
    before: FrameCounts,
    after: FrameCounts,
    scale_factor_bits: u32,
)
    ensures
        ({
            let capture = element.captured(
                prepaint,
                operations,
                before,
                after,
                scale_factor_bits,
            );
            let replay = element.replayable(
                capture,
                scale_factor_bits,
                VectorSceneTransform::identity(),
            );
            &&& capture.ready && element.coverage.0.encloses(element.viewport) ==> replay == Some(
                VectorSceneTransform::identity(),
            )
            &&& !capture.ready ==> replay is None
            &&& capture.ready ==> capture.operations == operations && all_vector_paint(operations)
        }),
{
}

} // verus!
