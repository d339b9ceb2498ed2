//! The renderer's state and its decisions from the start of a frame to its end.
use vstd::prelude::*;

use crate::compositor::RasterCompositorLayers;
use crate::encode::{
    path_texture_for_viewport, root_path_texture_size, unsigned, EncodeState, Encoder, FrameStep,
    PathTexture,
};
use crate::frame_laws::{a_frame_fits_the_required_buffer, provided};
use crate::frame_plan::{
    allocations_left, draw_primitives, measurable, protected_keys, BatchMeasures, PlanContext,
    PlanState,
};
use crate::geometry::DeviceSize;
use crate::instance_buffer::{
    deferred_most, fitted, frame_required, grown_size, presized, required,
    required_instance_buffer_size, size_after_failure, InstanceBuffer, InstanceBufferPool,
    InstanceSizes, MAX_INSTANCE_BUFFER_BYTES,
};
use crate::presentation::{
    frame_event, frame_trace_event, one_less, presentation_plan, presented_event, reuses_scene,
    submission_event, DisplayTarget, FrameIdentity, MetalPresentationMode, PresentationPlan,
};
use crate::raster_cache::{
    one_more_handle, FramePresentationSample, RasterCacheHandle, RasterCacheOwners,
    RasterCacheStats, RasterCompositorPresentationSample, RasterTileKey, RasterTileLookup,
    RasterTileRevision,
};
use crate::residency::{RasterResidency, ResidencyModel};
use crate::scene::Scene;
use crate::trace_event::{FrameTraceEvent, FrameTraceEventKind};

verus! {

/// The state of a renderer.
pub struct MetalRenderer {
    pub residency: RasterResidency,
    pub pool: InstanceBufferPool,
    pub presents_with_transaction: bool,
    pub presentation_mode: MetalPresentationMode,
    pub display_link_target_host_time: Option<u64>,
    pub presented_frame_samples: Vec<FramePresentationSample>,
    pub raster_compositor_presentation_samples: Vec<RasterCompositorPresentationSample>,
    pub layers: RasterCompositorLayers,
    pub root_path_texture: Option<DeviceSize>,
    pub renderer_instance_id: u64,
    pub presentation_queue_depth: u64,
    pub last_logical_frame_id: u64,
}

/// What a frame starts with.
#[derive(Clone, Copy, Debug)]
pub struct FrameStart {
    /// The frame.
    pub frame_index: u64,
    /// The display link target that was set for it.
    pub target_host_time: Option<u64>,
    /// The bytes that it needs in the instance buffer.
    pub required_bytes: usize,
    /// The size that the buffers were grown to.
    pub grown_to: Option<usize>,
}

/// A frame that was planned.
pub struct DrawPlan {
    /// The buffer to write to.
    pub buffer: InstanceBuffer,
    /// The steps, if all of them fit.
    pub steps: Vec<FrameStep>,
    /// Whether all of them fit.
    pub encoded: bool,
    /// Behind the last run of the frame itself.
    pub offset: usize,
}

/// How the attempts to plan a frame ended.
pub struct Attempts {
    pub residency: ResidencyModel,
    pub frame: EncodeState,
    pub size: int,
}

/// A frame planned with buffers of some size.
pub open spec fn attempt(
    residency: ResidencyModel,
    scene: Scene,
    measures: Seq<BatchMeasures>,
    sizes: InstanceSizes,
    root_path_texture: bool,
    size: int,
) -> PlanState {
    PlanState {
        residency,
        frame: EncodeState { offset: 0, steps: Seq::empty(), failed: None },
    }.planned(
        PlanContext {
            protected: protected_keys(scene),
            sizes,
            capacity: size as usize,
            deferred_capacity: size as usize,
        },
        scene,
        measures,
        root_path_texture,
    )
}

/// A frame planned with buffers of some size, of twice that size and so on, until
/// it fits or the largest size was tried. What an attempt has done to the tiles
/// stays.
pub open spec fn attempts(
    residency: ResidencyModel,
    scene: Scene,
    measures: Seq<BatchMeasures>,
    sizes: InstanceSizes,
    root_path_texture: bool,
    size: int,
) -> Attempts
    decreases 2 * MAX_INSTANCE_BUFFER_BYTES - size,
{
    let plan = attempt(residency, scene, measures, sizes, root_path_texture, size);
    if plan.frame.failed is None || size >= MAX_INSTANCE_BUFFER_BYTES || size <= 0 {
        Attempts { residency: plan.residency, frame: plan.frame, size }
    } else {
        attempts(plan.residency, scene, measures, sizes, root_path_texture, size * 2)
    }
}

/// Whether there is a texture to rasterize paths in for a target.
pub open spec fn path_texture_there(root: Option<DeviceSize>, size: DeviceSize) -> bool {
    (root is Some && root->0.width == unsigned(size.width) && root->0.height == unsigned(
        size.height,
    )) || (size.width > 0 && size.height > 0)
}

impl MetalRenderer {
    /// A renderer that has drawn nothing.
    pub fn new(
        pool: InstanceBufferPool,
        presentation_mode: MetalPresentationMode,
        renderer_instance_id: u64,
    ) -> (renderer: MetalRenderer)
        ensures
            renderer.pool == pool,
            renderer.presentation_mode == presentation_mode,
            renderer.renderer_instance_id == renderer_instance_id,
            renderer.residency@ == (ResidencyModel {
                textures: Seq::empty(),
                namespaces: Seq::empty(),
                next_account: 1,
                next_allocation: 0,
                frame_index: 0,
            }),
            !renderer.presents_with_transaction,
            renderer.display_link_target_host_time is None,
            renderer.presented_frame_samples@.len() == 0,
            renderer.raster_compositor_presentation_samples@.len() == 0,
            renderer.layers@.len() == 0,
            renderer.root_path_texture is None,
            renderer.presentation_queue_depth == 0,
            renderer.last_logical_frame_id == 0,
    {
        MetalRenderer {
            residency: RasterResidency::new(),
            pool,
            presents_with_transaction: false,
            presentation_mode,
            display_link_target_host_time: None,
            presented_frame_samples: Vec::new(),
            raster_compositor_presentation_samples: Vec::new(),
            layers: RasterCompositorLayers::new(),
            root_path_texture: None,
            renderer_instance_id,
            presentation_queue_depth: 0,
            last_logical_frame_id: 0,
        }
    }

    /// Looks a tile up for the present frame.
    pub fn raster_tile_lookup(
        &mut self,
        owners: &mut RasterCacheOwners,
        cache: &RasterCacheHandle,
        key: RasterTileKey,
        revision: RasterTileRevision,
    ) -> (found: RasterTileLookup)
        requires
            old(owners).shareable(cache.identity.id),
        ensures
            (final(self).residency@, found) == old(self).residency@.keeping(
                |id: u64| old(owners).held(id),
            ).lookup(cache.identity, key, revision),
            final(owners).next_id == old(owners).next_id,
            final(owners)@ == one_more_handle(old(owners)@, cache.identity.id),
            final(owners).wf(),
            *final(self) == (MetalRenderer { residency: final(self).residency, ..*old(self) }),
    {
        self.residency.raster_tile_lookup(owners, cache, key, revision)
    }

    /// The counters of a cache.
    pub fn raster_cache_stats(&self, cache: &RasterCacheHandle) -> (stats: RasterCacheStats)
        ensures
            stats == self.residency@.stats_of(cache.identity.id),
    {
        self.residency.raster_cache_stats(cache)
    }

    /// Gives up a cache with all of its tiles.
    pub fn release_raster_cache(&mut self, cache: &RasterCacheHandle)
        ensures
            final(self).residency@ == old(self).residency@.keeping(
                |id: u64| id != cache.identity.id,
            ),
            *final(self) == (MetalRenderer { residency: final(self).residency, ..*old(self) }),
    {
        self.residency.release_raster_cache(cache);
    }

    /// Hands out the frames that were shown since the last call.
    pub fn take_presented_frame_samples(&mut self) -> (samples: Vec<FramePresentationSample>)
        ensures
            samples@ == old(self).presented_frame_samples@,
            final(self).presented_frame_samples@.len() == 0,
            *final(self) == (MetalRenderer {
                presented_frame_samples: final(self).presented_frame_samples,
                ..*old(self)
            }),
    {
        let mut samples: Vec<FramePresentationSample> = Vec::new();
        core::mem::swap(&mut samples, &mut self.presented_frame_samples);
        samples
    }

    /// Hands out the transforms that were shown since the last call.
    pub fn take_raster_compositor_presentation_samples(&mut self) -> (samples: Vec<
        RasterCompositorPresentationSample,
    >)
        ensures
            samples@ == old(self).raster_compositor_presentation_samples@,
            final(self).raster_compositor_presentation_samples@.len() == 0,
            *final(self) == (MetalRenderer {
                raster_compositor_presentation_samples: final(self).raster_compositor_presentation_samples,
                ..*old(self)
            }),
    {
        let mut samples: Vec<RasterCompositorPresentationSample> = Vec::new();
        core::mem::swap(&mut samples, &mut self.raster_compositor_presentation_samples);
        samples
    }

    /// Presents in step with transactions, or not. In step with them no display link
    /// target counts.
    pub fn set_presents_with_transaction(&mut self, presents_with_transaction: bool)
        ensures
            *final(self) == (MetalRenderer {
                presents_with_transaction,
                display_link_target_host_time: if presents_with_transaction {
                    None
                } else {
                    old(self).display_link_target_host_time
                },
                ..*old(self)
            }),
    {
        self.presents_with_transaction = presents_with_transaction;
        if presents_with_transaction {
            self.display_link_target_host_time = None;
        }
    }

    /// Sets the display link target of the next frame.
    pub fn set_display_link_target(&mut self, target_host_time: Option<u64>)
        ensures
            *final(self) == (MetalRenderer {
                display_link_target_host_time: target_host_time,
                ..*old(self)
            }),
    {
        self.display_link_target_host_time = target_host_time;
    }

    /// Follows a change of the drawable's size: the texture that paths are rasterized
    /// in has that size, or is not there.
    pub fn update_drawable_size(&mut self, size: DeviceSize)
        ensures
            *final(self) == (MetalRenderer {
                root_path_texture: if size.width > 0 && size.height > 0 {
                    Some(size)
                } else {
                    None
                },
                ..*old(self)
            }),
    {
        self.root_path_texture = root_path_texture_size(size);
    }

    /// Begins a frame: counts it, takes the display link target that was set for it,
    /// and grows the buffers to what the scene needs.
    pub fn begin_draw(&mut self, scene: &Scene, sizes: &InstanceSizes) -> (start: FrameStart)
        ensures
            start.frame_index == (if old(self).residency@.frame_index == u64::MAX {
                0u64
            } else {
                (old(self).residency@.frame_index + 1) as u64
            }),
            final(self).residency@ == (ResidencyModel {
                frame_index: start.frame_index,
                ..old(self).residency@
            }),
            start.target_host_time == old(self).display_link_target_host_time,
            final(self).display_link_target_host_time is None,
            start.required_bytes == fitted(required(*scene, *sizes)),
            start.grown_to == grown_size(old(self).pool.buffer_size, start.required_bytes),
            match start.grown_to {
                Some(size) => final(self).pool.buffer_size == size && final(self).pool.buffers@.len() == 0,
                None => final(self).pool == old(self).pool,
            },
            required(*scene, *sizes) <= MAX_INSTANCE_BUFFER_BYTES ==> required(*scene, *sizes)
                <= final(self).pool.buffer_size,
            *final(self) == (MetalRenderer {
                residency: final(self).residency,
                pool: final(self).pool,
                display_link_target_host_time: None,
                ..*old(self)
            }),
    {
        let frame_index: u64 = self.residency.advance_frame();
        let target_host_time = self.display_link_target_host_time;
        self.display_link_target_host_time = None;
        let required_bytes: usize = required_instance_buffer_size(scene, sizes);
        let grown_to = presized(self.pool.buffer_size, required_bytes);
        if let Some(size) = grown_to {
            self.pool.reset(size);
        }
        FrameStart { frame_index, target_host_time, required_bytes, grown_to }
    }

    /// Plans a frame, with larger buffers each time that it does not fit, until the
    /// largest size was tried. A new buffer goes by the identifier given.
    pub fn draw(
        &mut self,
        scene: &Scene,
        measures: &Vec<BatchMeasures>,
        sizes: &InstanceSizes,
        viewport_size: DeviceSize,
        fresh_buffer: u64,
    ) -> (plan: DrawPlan)
        requires
            0 < old(self).pool.buffer_size < 2 * MAX_INSTANCE_BUFFER_BYTES,
            allocations_left(
                old(self).residency@,
                30 * (scene.raster_tile_updates@.len() + scene.raster_tile_update_batches@.len()),
            ),
            measures@.len() == scene.raster_tile_update_batches@.len(),
            forall|i: int|
                0 <= i < measures@.len() ==> measurable(
                    scene.raster_tile_update_batches@[i],
                    #[trigger] measures@[i],
                ),
        ensures
            ({
                let ended = attempts(
                    old(self).residency@,
                    *scene,
                    measures@,
                    *sizes,
                    path_texture_there(old(self).root_path_texture, viewport_size),
                    old(self).pool.buffer_size as int,
                );
                &&& final(self).residency@ == ended.residency
                &&& plan.steps@ == ended.frame.steps
                &&& plan.offset as int == ended.frame.offset
                &&& plan.encoded == ended.frame.failed is None
                &&& plan.buffer.size as int == ended.size
                &&& final(self).pool.buffer_size as int == ended.size
                &&& ended.size != old(self).pool.buffer_size ==> plan.buffer.id == fresh_buffer
                    && final(self).pool.buffers@.len() == 0
                &&& ended.size == old(self).pool.buffer_size ==> {
                    let idle = old(self).pool.buffers@;
                    if idle.len() > 0 {
                        plan.buffer.id == idle.last() && final(self).pool.buffers@
                            == idle.drop_last()
                    } else {
                        plan.buffer.id == fresh_buffer && final(self).pool.buffers@ == idle
                    }
                }
            }),
            *final(self) == (MetalRenderer {
                residency: final(self).residency,
                pool: final(self).pool,
                ..*old(self)
            }),
    {
        let root_path_texture: bool = match path_texture_for_viewport(
            self.root_path_texture,
            viewport_size,
        ) {
            PathTexture::Unavailable => false,
            _ => true,
        };
        let ghost start = *self;
        let ghost more = scene.raster_tile_updates@.len()
            + scene.raster_tile_update_batches@.len();
        let ghost mut tries: int = 0;
        let ghost mut power: int = 1;
        proof {
            vstd::arithmetic::power2::lemma2_to64();
        }
        loop
            invariant
                start == *old(self),
                *self == (MetalRenderer { residency: self.residency, pool: self.pool, ..start }),
                root_path_texture == path_texture_there(start.root_path_texture, viewport_size),
                0 < self.pool.buffer_size < 2 * MAX_INSTANCE_BUFFER_BYTES,
                start.pool.buffer_size < 2 * MAX_INSTANCE_BUFFER_BYTES,
                0 <= tries <= 28,
                power == vstd::arithmetic::power2::pow2(tries as nat),
                self.pool.buffer_size >= power,
                tries == 0 <==> self.pool.buffer_size == start.pool.buffer_size,
                tries == 0 ==> self.pool == start.pool,
                tries > 0 ==> self.pool.buffers@.len() == 0 && self.pool.buffer_size
                    > start.pool.buffer_size,
                more == scene.raster_tile_updates@.len()
                    + scene.raster_tile_update_batches@.len(),
                allocations_left(start.residency@, 30 * more),
                self.residency@.next_allocation <= start.residency@.next_allocation + tries * more,
                measures@.len() == scene.raster_tile_update_batches@.len(),
                forall|i: int|
                    0 <= i < measures@.len() ==> measurable(
                        scene.raster_tile_update_batches@[i],
                        #[trigger] measures@[i],
                    ),
                attempts(
                    start.residency@,
                    *scene,
                    measures@,
                    *sizes,
                    root_path_texture,
                    start.pool.buffer_size as int,
                ) == attempts(
                    self.residency@,
                    *scene,
                    measures@,
                    *sizes,
                    root_path_texture,
                    self.pool.buffer_size as int,
                ),
            decreases 2 * MAX_INSTANCE_BUFFER_BYTES - self.pool.buffer_size,
        {
            proof {
                vstd::arithmetic::power2::lemma2_to64();
                assert(tries * more + more == (tries + 1) * more) by (nonlinear_arith);
                assert((tries + 1) * more <= 30 * more) by (nonlinear_arith)
                    requires
                        tries + 1 <= 30,
                        more >= 0,
                ;
            }
            let buffer = self.pool.acquire(fresh_buffer);
            let mut encoder = Encoder::new(buffer.size);
            let encoded: bool = draw_primitives(
                &mut self.residency,
                &mut encoder,
                scene,
                measures,
                sizes,
                buffer.size,
                root_path_texture,
            );
            let next = size_after_failure(self.pool.buffer_size);
            if encoded || next.is_none() {
                return DrawPlan {
                    buffer,
                    offset: encoder.offset,
                    steps: encoder.steps,
                    encoded,
                };
            }
            if let Some(size) = next {
                self.pool.reset(size);
            }
            proof {
                if tries == 28 {
                    assert(false);
                }
                vstd::arithmetic::power2::lemma_pow2_unfold((tries + 1) as nat);
                tries = tries + 1;
                power = power * 2;
            }
        }
    }

    /// How the frame is handed to the display.
    pub fn presentation_plan(&self, target_host_time: Option<u64>) -> (plan: PresentationPlan)
        ensures
            plan == if self.presents_with_transaction {
                PresentationPlan::WithTransaction
            } else if self.presentation_mode == MetalPresentationMode::DisplayLinkTargetEarly
                && target_host_time is Some {
                PresentationPlan::AtHostTime(target_host_time->0)
            } else {
                PresentationPlan::Immediately
            },
    {
        presentation_plan(
            self.presents_with_transaction,
            self.presentation_mode,
            target_host_time,
        )
    }

    /// Which frame it is that draws a scene.
    pub fn frame_identity(&self, scene: &Scene, drawable_id: u64, command_buffer_id: u64) -> (frame:
        FrameIdentity)
        ensures
            frame == (FrameIdentity {
                renderer_instance_id: self.renderer_instance_id,
                renderer_frame_id: self.residency@.frame_index,
                logical_frame_id: scene@.trace.logical_frame_id,
                input_sequence_id: scene@.trace.input_sequence_id,
                drawable_id,
                command_buffer_id,
                reused_scene: scene@.trace.logical_frame_id != 0 && scene@.trace.logical_frame_id
                    == self.last_logical_frame_id,
            }),
    {
        FrameIdentity {
            renderer_instance_id: self.renderer_instance_id,
            renderer_frame_id: self.residency.frame_index,
            logical_frame_id: scene.trace.logical_frame_id,
            input_sequence_id: scene.trace.input_sequence_id,
            drawable_id,
            command_buffer_id,
            reused_scene: reuses_scene(
                scene.trace.logical_frame_id,
                self.last_logical_frame_id,
            ),
        }
    }

    /// An event of the frame that draws a scene.
    pub fn frame_trace_event(
        &self,
        kind: FrameTraceEventKind,
        timestamp_ns: u64,
        frame: FrameIdentity,
        target: DisplayTarget,
    ) -> (event: FrameTraceEvent)
        ensures
            event == frame_event(
                kind,
                timestamp_ns,
                frame,
                target,
                self.presentation_queue_depth,
            ),
    {
        frame_trace_event(kind, timestamp_ns, frame, target, self.presentation_queue_depth)
    }

    /// Submits a frame: one more presentation is in flight, and the scene's logical
    /// frame is the one shown last. Returns the event.
    pub fn submit(&mut self, timestamp_ns: u64, frame: FrameIdentity, target: DisplayTarget) -> (event:
        FrameTraceEvent)
        requires
            old(self).presentation_queue_depth < u64::MAX,
        ensures
            event.kind == FrameTraceEventKind::CommandBufferSubmitted,
            event.timestamp_ns == timestamp_ns,
            event.presentation_queue_depth == old(self).presentation_queue_depth + 1,
            event == (FrameTraceEvent {
                flags: event.flags,
                ..frame_event(
                    FrameTraceEventKind::CommandBufferSubmitted,
                    timestamp_ns,
                    frame,
                    target,
                    event.presentation_queue_depth,
                )
            }),
            event.flags == crate::presentation::with_flag(
                frame_event(
                    FrameTraceEventKind::CommandBufferSubmitted,
                    timestamp_ns,
                    frame,
                    target,
                    event.presentation_queue_depth,
                ).flags,
                crate::trace_event::FLAG_MISSED_DISPLAY_TARGET,
                target.time_ns != 0 && timestamp_ns > target.time_ns,
            ),
            *final(self) == (MetalRenderer {
                presentation_queue_depth: event.presentation_queue_depth,
                last_logical_frame_id: frame.logical_frame_id,
                ..*old(self)
            }),
    {
        self.presentation_queue_depth = self.presentation_queue_depth + 1;
        self.last_logical_frame_id = frame.logical_frame_id;
        submission_event(timestamp_ns, frame, target, self.presentation_queue_depth)
    }

    /// Takes in that a drawable has ended: one presentation less is in flight, and
    /// the sample is kept. Returns the event.
    pub fn presented(
        &mut self,
        presented_time_ns: u64,
        callback_observed_ns: u64,
        raw_drawable_id: u64,
        frame: FrameIdentity,
        target: DisplayTarget,
        sample: FramePresentationSample,
    ) -> (event: FrameTraceEvent)
        ensures
            event == crate::presentation::ended_event(
                presented_time_ns,
                callback_observed_ns,
                if raw_drawable_id == u64::MAX {
                    u64::MAX
                } else {
                    (raw_drawable_id + 1) as u64
                },
                old(self).presentation_queue_depth,
                frame,
                target,
            ),
            final(self).presented_frame_samples@ == old(self).presented_frame_samples@.push(
                sample,
            ),
            *final(self) == (MetalRenderer {
                presentation_queue_depth: one_less(old(self).presentation_queue_depth),
                presented_frame_samples: final(self).presented_frame_samples,
                ..*old(self)
            }),
    {
        let (event, queue_depth) = presented_event(
            presented_time_ns,
            callback_observed_ns,
            raw_drawable_id,
            self.presentation_queue_depth,
            frame,
            target,
        );
        self.presentation_queue_depth = queue_depth;
        self.presented_frame_samples.push(sample);
        event
    }
}

/// A frame that needs no more than the buffers hold is planned at the first attempt,
/// with the buffers as they are.
pub proof fn a_presized_frame_is_drawn_at_once(
    residency: ResidencyModel,
    scene: Scene,
    measures: Seq<BatchMeasures>,
    sizes: InstanceSizes,
    root_path_texture: bool,
    size: usize,
)
    requires
        sizes.positive(),
        required(scene, sizes) <= size,
        scene@.lists.paths.len() > 0 ==> root_path_texture,
    ensures
        ({
            let ended = attempts(
                residency,
                scene,
                measures,
                sizes,
                root_path_texture,
                size as int,
            );
            &&& ended.frame.failed is None
            &&& ended.size == size
        }),
{
    let context = PlanContext {
        protected: protected_keys(scene),
        sizes,
        capacity: size,
        deferred_capacity: size,
    };
    assert(frame_required(scene, sizes) <= required(scene, sizes));
    assert(deferred_most(scene.raster_tile_update_batches@, sizes) <= required(scene, sizes));
    assert(provided(context, scene, root_path_texture));
    a_frame_fits_the_required_buffer(
        PlanState {
            residency,
            frame: EncodeState { offset: 0, steps: Seq::empty(), failed: None },
        },
        context,
        scene,
        measures,
        root_path_texture,
    );
}

} // verus!
