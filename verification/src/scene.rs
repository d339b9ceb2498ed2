//! Scenes: primitives recorded in the sequence of painting, with the order in
//! which each is drawn.
use vstd::prelude::*;

use crate::bounds_tree::{next_order, properly_ordered, BoundsTree, OrderedBounds};
use crate::compositor_transform::RasterCompositorTransform;
use crate::geometry::{Bounds, ContentMask, DeviceSize, Rectangle};
use crate::primitive::{
    DrawOrder, MonochromeSprite, PaintOperation, PaintSurface, PathId, PolychromeSprite,
    Primitive, PrimitiveLists, Quad, RasterTile, ScenePath, Shadow, TransformationMatrix,
    TransformedGeometry, Underline,
};
use crate::raster_cache::{
    one_handle_less, RasterCacheHandle, RasterCacheOwners, RasterTileKey, RasterTileRevision,
};
use crate::stable_sort::{ascending, sort, stable_order_is_unique, stably_sorted, Keyed};
use crate::trace_event::{
    FrameTraceDisplayTick, FrameTraceEvent, FrameTraceSceneSummary, MachTimebase,
    PresentationToken, FLAG_DISPLAY_CURRENT_INVALID, FLAG_DISPLAY_REFRESH_INVALID,
    FLAG_DISPLAY_TARGET_INVALID,
};

verus! {

/// A tile to be rasterized from a scene of its own.
pub struct RasterTileUpdate {
    pub cache: RasterCacheHandle,
    pub key: RasterTileKey,
    pub revision: RasterTileRevision,
    pub texture_size: DeviceSize,
    pub gutter: i32,
    pub source_bounds: Bounds,
    pub scene: Scene,
}

/// Tiles to be rasterized together from one scene.
pub struct RasterTileUpdateBatch {
    pub cache: RasterCacheHandle,
    pub texture_size: DeviceSize,
    pub gutter: i32,
    pub targets: Vec<RasterTileUpdateTarget>,
    pub scene: Scene,
    /// Rasterized after the frame was submitted.
    pub deferred: bool,
    /// Compared with a direct rendering.
    pub verify: bool,
}

/// One tile of a batch.
#[derive(Clone, Copy, Debug, PartialEq, Eq, Structural)]
pub struct RasterTileUpdateTarget {
    pub key: RasterTileKey,
    pub revision: RasterTileRevision,
    pub source_bounds: Bounds,
}

/// A surface that the compositor moves by a transform of its own.
pub struct RasterCompositorSurface {
    pub compositor_id: u64,
    pub captured_transform: RasterCompositorTransform,
    pub clip_bounds: Rectangle,
    pub raster_bounds: Rectangle,
    pub scene: Scene,
}

/// What a frame trace knows of a scene.
#[derive(Clone, Copy, Debug)]
pub struct SceneTrace {
    pub logical_frame_id: u64,
    pub input_sequence_id: u64,
    pub presentation_token: Option<PresentationToken>,
    pub scene_build_tick: Option<FrameTraceDisplayTick>,
    pub presentation_tick: Option<FrameTraceDisplayTick>,
    pub gpui_window_frame_id: u64,
    pub summary: FrameTraceSceneSummary,
    pub diagnostic_hold_ticks: u8,
    pub last_held_tick_sequence: u64,
}

/// A scene.
pub struct Scene {
    pub paint_operations: Vec<PaintOperation>,
    pub primitive_bounds: BoundsTree,
    pub layer_stack: Vec<DrawOrder>,
    pub shadows: Vec<Shadow>,
    pub quads: Vec<Quad>,
    pub paths: Vec<ScenePath>,
    pub underlines: Vec<Underline>,
    pub monochrome_sprites: Vec<MonochromeSprite>,
    pub polychrome_sprites: Vec<PolychromeSprite>,
    pub surfaces: Vec<PaintSurface>,
    pub raster_tiles: Vec<RasterTile>,
    pub raster_tile_updates: Vec<RasterTileUpdate>,
    pub raster_tile_update_batches: Vec<RasterTileUpdateBatch>,
    pub raster_compositor_surfaces: Vec<RasterCompositorSurface>,
    pub trace: SceneTrace,
}

/// The contents of a scene.
pub struct SceneModel {
    /// What was painted, in sequence.
    pub operations: Seq<PaintOperation>,
    /// The rectangles that have an order.
    pub bounds: Seq<OrderedBounds>,
    /// The orders of the layers that are open, innermost last.
    pub layers: Seq<DrawOrder>,
    /// The primitives.
    pub lists: PrimitiveLists,
    /// Tiles to be rasterized.
    pub updates: Seq<RasterTileUpdate>,
    /// Batches of tiles to be rasterized.
    pub batches: Seq<RasterTileUpdateBatch>,
    /// Surfaces of the compositor.
    pub compositors: Seq<RasterCompositorSurface>,
    /// What a frame trace knows.
    pub trace: SceneTrace,
}

/// The sum of two counters as far as 64 bits hold it.
pub open spec fn sum_of(a: u64, b: u64) -> u64 {
    if a + b > u64::MAX {
        u64::MAX
    } else {
        (a + b) as u64
    }
}

/// The flags of a display tick that is not there.
pub const NO_TICK_FLAGS: u64 = 0x3020;

/// A missing tick is marked as having no valid current time, target or refresh
/// period.
pub proof fn missing_tick_is_invalid()
    ensures
        NO_TICK_FLAGS == FLAG_DISPLAY_CURRENT_INVALID | FLAG_DISPLAY_TARGET_INVALID
            | FLAG_DISPLAY_REFRESH_INVALID,
{
    assert(0x3020u64 == 0x1000u64 | 0x20u64 | 0x2000u64) by (bit_vector);
}

impl SceneTrace {
    /// Nothing known.
    pub open spec fn spec_empty() -> SceneTrace {
        SceneTrace {
            logical_frame_id: 0,
            input_sequence_id: 0,
            presentation_token: None,
            scene_build_tick: None,
            presentation_tick: None,
            gpui_window_frame_id: 0,
            summary: FrameTraceSceneSummary::spec_empty(),
            diagnostic_hold_ticks: 0,
            last_held_tick_sequence: 0,
        }
    }

    /// Nothing known.
    pub fn empty() -> (trace: SceneTrace)
        ensures
            trace == SceneTrace::spec_empty(),
    {
        SceneTrace {
            logical_frame_id: 0,
            input_sequence_id: 0,
            presentation_token: None,
            scene_build_tick: None,
            presentation_tick: None,
            gpui_window_frame_id: 0,
            summary: FrameTraceSceneSummary::empty(),
            diagnostic_hold_ticks: 0,
            last_held_tick_sequence: 0,
        }
    }

    /// Whether the present tick counts toward a hold: it is a tick of its own, and
    /// another one than was counted last.
    pub open spec fn tick_counts(self) -> bool {
        self.presentation_tick matches Some(tick) && tick.sequence != 0 && tick.coalesced_count == 1
            && tick.sequence != self.last_held_tick_sequence
    }

    /// After a presentation attempt was held, where holds were asked for.
    pub open spec fn held(self) -> SceneTrace {
        if self.diagnostic_hold_ticks > 0 && self.tick_counts() {
            SceneTrace {
                last_held_tick_sequence: self.presentation_tick->0.sequence,
                diagnostic_hold_ticks: (self.diagnostic_hold_ticks - 1) as u8,
                ..self
            }
        } else {
            self
        }
    }

    /// The event with what the scene's own tick tells.
    pub open spec fn with_build_tick(
        self,
        event: FrameTraceEvent,
        timebase: MachTimebase,
    ) -> FrameTraceEvent {
        match self.scene_build_tick {
            Some(tick) => FrameTraceEvent {
                scene_build_display_tick_sequence: tick.sequence,
                scene_build_target_display_time_ns: tick.spec_target_time_ns(timebase),
                scene_build_tick_flags: tick.flags,
                flags: event.flags | tick.flags,
                ..event
            },
            None => FrameTraceEvent {
                scene_build_tick_flags: NO_TICK_FLAGS,
                flags: event.flags | NO_TICK_FLAGS,
                ..event
            },
        }
    }

    /// The event with what the tick of the presentation attempt tells.
    pub open spec fn with_presentation_tick(
        self,
        event: FrameTraceEvent,
        timebase: MachTimebase,
    ) -> FrameTraceEvent {
        match self.presentation_tick {
            Some(tick) => FrameTraceEvent {
                display_id: tick.display_id as u64,
                display_current_time_ns: tick.spec_current_time_ns(timebase),
                display_refresh_period_ns: if tick.flags & FLAG_DISPLAY_REFRESH_INVALID == 0 {
                    tick.refresh_period_ns
                } else {
                    0
                },
                display_current_host_time_raw: tick.current_host_time_raw,
                display_output_host_time_raw: tick.output_host_time_raw,
                display_video_refresh_period: tick.video_refresh_period,
                display_video_time_scale: tick.video_time_scale as i64,
                display_rate_scalar_bits: tick.rate_scalar.bits,
                presentation_display_tick_sequence: tick.sequence,
                presentation_target_display_time_ns: tick.spec_target_time_ns(timebase),
                presentation_tick_flags: tick.flags,
                coalesced_display_tick_count: tick.coalesced_count,
                flags: event.flags | tick.flags,
                ..event
            },
            None => FrameTraceEvent {
                presentation_tick_flags: NO_TICK_FLAGS,
                flags: event.flags | NO_TICK_FLAGS,
                ..event
            },
        }
    }

    /// The event with all that is known of the scene.
    pub open spec fn populated(
        self,
        event: FrameTraceEvent,
        timebase: MachTimebase,
    ) -> FrameTraceEvent {
        let correlated = FrameTraceEvent {
            logical_frame_id: self.logical_frame_id,
            input_sequence_id: self.input_sequence_id,
            gpui_window_frame_id: self.gpui_window_frame_id,
            presentation_token: self.presentation_token,
            ..event
        };
        let ticked = self.with_presentation_tick(
            self.with_build_tick(correlated, timebase),
            timebase,
        );
        FrameTraceEvent {
            shadow_count: self.summary.shadow_count,
            quad_count: self.summary.quad_count,
            path_count: self.summary.path_count,
            sprite_count: self.summary.sprite_count,
            surface_count: self.summary.surface_count,
            shadow_expanded_area_device_px2: self.summary.shadow_expanded_area_device_px2,
            quad_area_device_px2: self.summary.quad_area_device_px2,
            path_segment_count: self.summary.path_segment_count,
            ..ticked
        }
    }
}

/// The summary with one more primitive.
pub open spec fn counted_in(
    summary: FrameTraceSceneSummary,
    primitive: Primitive,
) -> FrameTraceSceneSummary {
    match primitive {
        Primitive::Shadow(shadow) => FrameTraceSceneSummary {
            shadow_count: sum_of(summary.shadow_count, 1),
            shadow_expanded_area_device_px2: sum_of(
                summary.shadow_expanded_area_device_px2,
                shadow.expanded_area_device_px2,
            ),
            ..summary
        },
        Primitive::Quad(quad) => FrameTraceSceneSummary {
            quad_count: sum_of(summary.quad_count, 1),
            quad_area_device_px2: sum_of(
                summary.quad_area_device_px2,
                quad.clipped_area_device_px2,
            ),
            ..summary
        },
        Primitive::Path(path) => FrameTraceSceneSummary {
            path_count: sum_of(summary.path_count, 1),
            path_segment_count: sum_of(summary.path_segment_count, path.contour_count as u64),
            ..summary
        },
        Primitive::MonochromeSprite(_) | Primitive::PolychromeSprite(_) => FrameTraceSceneSummary {
            sprite_count: sum_of(summary.sprite_count, 1),
            ..summary
        },
        Primitive::Surface(_) => FrameTraceSceneSummary {
            surface_count: sum_of(summary.surface_count, 1),
            ..summary
        },
        Primitive::Underline(_) | Primitive::RasterTile(_) => summary,
    }
}

fn count_in(summary: FrameTraceSceneSummary, primitive: Primitive) -> (counted:
    FrameTraceSceneSummary)
    ensures
        counted == counted_in(summary, primitive),
{
    let mut counted = summary;
    match primitive {
        Primitive::Shadow(shadow) => {
            counted.shadow_count = counted.shadow_count.saturating_add(1);
            counted.shadow_expanded_area_device_px2 =
            counted.shadow_expanded_area_device_px2.saturating_add(shadow.expanded_area_device_px2);
        },
        Primitive::Quad(quad) => {
            counted.quad_count = counted.quad_count.saturating_add(1);
            counted.quad_area_device_px2 =
            counted.quad_area_device_px2.saturating_add(quad.clipped_area_device_px2);
        },
        Primitive::Path(path) => {
            counted.path_count = counted.path_count.saturating_add(1);
            counted.path_segment_count =
            counted.path_segment_count.saturating_add(path.contour_count as u64);
        },
        Primitive::MonochromeSprite(_) | Primitive::PolychromeSprite(_) => {
            counted.sprite_count = counted.sprite_count.saturating_add(1);
        },
        Primitive::Surface(_) => {
            counted.surface_count = counted.surface_count.saturating_add(1);
        },
        Primitive::Underline(_) | Primitive::RasterTile(_) => {},
    }
    counted
}

impl SceneModel {
    /// Nothing was painted.
    pub open spec fn empty() -> SceneModel {
        SceneModel {
            operations: Seq::empty(),
            bounds: Seq::empty(),
            layers: Seq::empty(),
            lists: PrimitiveLists::empty(),
            updates: Seq::empty(),
            batches: Seq::empty(),
            compositors: Seq::empty(),
            trace: SceneTrace::spec_empty(),
        }
    }

    /// The rectangles have the orders that they get.
    pub open spec fn wf(self) -> bool {
        properly_ordered(self.bounds)
    }

    /// Whether orders suffice for all rectangles that have one.
    pub open spec fn fits(self) -> bool {
        self.bounds.len() <= u32::MAX
    }

    /// Whether so many more rectangles can get an order.
    pub open spec fn has_room(self, more: int) -> bool {
        self.bounds.len() + more <= u32::MAX
    }

    /// The order that something with these bounds gets: that of the innermost
    /// layer, or one of its own outside of layers.
    pub open spec fn order_of(self, bounds: Bounds) -> DrawOrder {
        if self.layers.len() > 0 {
            self.layers.last()
        } else {
            next_order(self.bounds, bounds) as u32
        }
    }

    /// With these bounds entered, where they get an order of their own.
    pub open spec fn ordered(self, bounds: Bounds) -> SceneModel {
        if self.layers.len() > 0 {
            self
        } else {
            self.entered(bounds)
        }
    }

    /// With these bounds entered.
    pub open spec fn entered(self, bounds: Bounds) -> SceneModel {
        SceneModel {
            bounds: self.bounds.push(
                OrderedBounds { bounds, order: next_order(self.bounds, bounds) as u32 },
            ),
            ..self
        }
    }

    /// With one more primitive: none that is clipped away, else at the order of its
    /// clipped bounds, counted in the summary and recorded as painted.
    pub open spec fn inserted(self, primitive: Primitive) -> SceneModel {
        if primitive.clipped().empty() {
            self
        } else {
            let placed = primitive.placed(
                self.order_of(primitive.clipped()),
                PathId(self.lists.paths.len() as usize),
            );
            let ordered = self.ordered(primitive.clipped());
            SceneModel {
                operations: self.operations.push(PaintOperation::Primitive(placed)),
                lists: self.lists.with(placed),
                trace: SceneTrace {
                    summary: counted_in(self.trace.summary, primitive),
                    ..self.trace
                },
                ..ordered
            }
        }
    }

    /// With a layer entered, at an order of its own.
    pub open spec fn layer_pushed(self, bounds: Bounds) -> SceneModel {
        SceneModel {
            operations: self.operations.push(PaintOperation::StartLayer(bounds)),
            layers: self.layers.push(next_order(self.bounds, bounds) as u32),
            ..self.entered(bounds)
        }
    }

    /// The layers without the innermost one.
    pub open spec fn outer_layers(self) -> Seq<DrawOrder> {
        if self.layers.len() > 0 {
            self.layers.drop_last()
        } else {
            self.layers
        }
    }

    /// With the innermost layer left, if one is open.
    pub open spec fn layer_popped(self) -> SceneModel {
        SceneModel {
            operations: self.operations.push(PaintOperation::EndLayer),
            layers: self.outer_layers(),
            ..self
        }
    }

    /// With one operation painted.
    pub open spec fn painted(self, operation: PaintOperation) -> SceneModel {
        match operation {
            PaintOperation::Primitive(primitive) => self.inserted(primitive),
            PaintOperation::StartLayer(bounds) => self.layer_pushed(bounds),
            PaintOperation::EndLayer => self.layer_popped(),
        }
    }

    /// With operations painted in sequence.
    pub open spec fn replayed(self, operations: Seq<PaintOperation>) -> SceneModel
        decreases operations.len(),
    {
        if operations.len() == 0 {
            self
        } else {
            self.replayed(operations.drop_last()).painted(operations.last())
        }
    }

    /// With one operation of cached text painted: a layer clipped to the mask, one
    /// that is clipped away standing for the layer around it, or a sprite under
    /// the mask and the transformation. Nothing is recorded as painted.
    pub open spec fn text_painted(
        self,
        operation: PaintOperation,
        content_mask: ContentMask,
        transformation: TransformationMatrix,
    ) -> SceneModel {
        match operation {
            PaintOperation::StartLayer(bounds) => {
                let clipped = bounds.spec_intersect(content_mask.bounds);
                if clipped.empty() {
                    SceneModel {
                        layers: self.layers.push(
                            if self.layers.len() > 0 {
                                self.layers.last()
                            } else {
                                u32::MAX
                            },
                        ),
                        ..self
                    }
                } else {
                    SceneModel {
                        layers: self.layers.push(next_order(self.bounds, clipped) as u32),
                        ..self.entered(clipped)
                    }
                }
            },
            PaintOperation::EndLayer => SceneModel { layers: self.outer_layers(), ..self },
            PaintOperation::Primitive(primitive) => SceneModel {
                lists: self.lists.with(
                    text_sprite(
                        primitive,
                        content_mask,
                        transformation,
                        self.order_of(primitive.spec_bounds()),
                    ),
                ),
                ..self.ordered(primitive.spec_bounds())
            },
        }
    }

    /// With operations of cached text painted in sequence.
    pub open spec fn text_replayed(
        self,
        operations: Seq<PaintOperation>,
        content_mask: ContentMask,
        transformation: TransformationMatrix,
    ) -> SceneModel
        decreases operations.len(),
    {
        if operations.len() == 0 {
            self
        } else {
            self.text_replayed(operations.drop_last(), content_mask, transformation).text_painted(
                operations.last(),
                content_mask,
                transformation,
            )
        }
    }

    /// Whether `after` is the scene with the primitives of each list sorted for
    /// drawing, and nothing else changed.
    pub open spec fn finished_as(self, after: SceneModel) -> bool {
        &&& after == SceneModel { lists: after.lists, ..self }
        &&& stably_sorted(self.lists.shadows, after.lists.shadows)
        &&& stably_sorted(self.lists.quads, after.lists.quads)
        &&& stably_sorted(self.lists.paths, after.lists.paths)
        &&& stably_sorted(self.lists.underlines, after.lists.underlines)
        &&& stably_sorted(self.lists.monochrome_sprites, after.lists.monochrome_sprites)
        &&& stably_sorted(self.lists.polychrome_sprites, after.lists.polychrome_sprites)
        &&& stably_sorted(self.lists.surfaces, after.lists.surfaces)
        &&& stably_sorted(self.lists.raster_tiles, after.lists.raster_tiles)
    }
}

/// A sprite of cached text under a mask and a transformation, at an order.
pub open spec fn text_sprite(
    primitive: Primitive,
    content_mask: ContentMask,
    transformation: TransformationMatrix,
    order: DrawOrder,
) -> Primitive {
    match primitive {
        Primitive::MonochromeSprite(sprite) => Primitive::MonochromeSprite(
            MonochromeSprite { order, content_mask, transformation, ..sprite },
        ),
        Primitive::PolychromeSprite(sprite) => Primitive::PolychromeSprite(
            PolychromeSprite { order, content_mask, transformation, ..sprite },
        ),
        _ => primitive,
    }
}

/// An operation under a transform, whose geometry was computed: a primitive follows it,
/// a layer moves, and a layer's end stays.
pub open spec fn transformed_operation(
    operation: PaintOperation,
    to: TransformedGeometry,
) -> PaintOperation {
    match operation {
        PaintOperation::Primitive(primitive) => PaintOperation::Primitive(
            primitive.spec_transformed(to),
        ),
        PaintOperation::StartLayer(_) => PaintOperation::StartLayer(to.bounds),
        PaintOperation::EndLayer => PaintOperation::EndLayer,
    }
}

/// Operations under a transform, whose geometry was computed.
pub open spec fn transformed_paint(
    operations: Seq<PaintOperation>,
    geometry: Seq<TransformedGeometry>,
) -> Seq<PaintOperation> {
    Seq::new(operations.len(), |i: int| transformed_operation(operations[i], geometry[i]))
}

/// An operation of cached text in another place: the rectangle of a layer or a sprite
/// moves there, and a layer's end stays.
pub open spec fn moved_operation(operation: PaintOperation, place: Bounds) -> PaintOperation {
    match operation {
        PaintOperation::Primitive(Primitive::MonochromeSprite(sprite)) => {
            PaintOperation::Primitive(
                Primitive::MonochromeSprite(MonochromeSprite { bounds: place, ..sprite }),
            )
        },
        PaintOperation::Primitive(Primitive::PolychromeSprite(sprite)) => {
            PaintOperation::Primitive(
                Primitive::PolychromeSprite(PolychromeSprite { bounds: place, ..sprite }),
            )
        },
        PaintOperation::StartLayer(_) => PaintOperation::StartLayer(place),
        _ => operation,
    }
}

/// Cached text in another place.
pub open spec fn moved_text(
    operations: Seq<PaintOperation>,
    places: Seq<Bounds>,
) -> Seq<PaintOperation> {
    Seq::new(operations.len(), |i: int| moved_operation(operations[i], places[i]))
}

fn move_text(operation: PaintOperation, place: Bounds) -> (moved: PaintOperation)
    ensures
        moved == moved_operation(operation, place),
{
    match operation {
        PaintOperation::Primitive(Primitive::MonochromeSprite(template)) => {
            let mut sprite = template;
            sprite.bounds = place;
            PaintOperation::Primitive(Primitive::MonochromeSprite(sprite))
        },
        PaintOperation::Primitive(Primitive::PolychromeSprite(template)) => {
            let mut sprite = template;
            sprite.bounds = place;
            PaintOperation::Primitive(Primitive::PolychromeSprite(sprite))
        },
        PaintOperation::StartLayer(_) => PaintOperation::StartLayer(place),
        _ => operation,
    }
}

/// Whether an operation may stand in a vector capture: surfaces and raster tiles
/// may not.
pub open spec fn is_vector_paint(operation: PaintOperation) -> bool {
    match operation {
        PaintOperation::Primitive(Primitive::Surface(_)) => false,
        PaintOperation::Primitive(Primitive::RasterTile(_)) => false,
        _ => true,
    }
}

/// Whether an operation may stand in cached text: layers and sprites may.
pub open spec fn is_text_paint(operation: PaintOperation) -> bool {
    match operation {
        PaintOperation::Primitive(Primitive::MonochromeSprite(_)) => true,
        PaintOperation::Primitive(Primitive::PolychromeSprite(_)) => true,
        PaintOperation::Primitive(_) => false,
        _ => true,
    }
}

/// Whether all operations may stand in a vector capture.
pub open spec fn all_vector_paint(operations: Seq<PaintOperation>) -> bool {
    forall|i: int| 0 <= i < operations.len() ==> is_vector_paint(#[trigger] operations[i])
}

/// Whether all operations may stand in cached text.
pub open spec fn all_text_paint(operations: Seq<PaintOperation>) -> bool {
    forall|i: int| 0 <= i < operations.len() ==> is_text_paint(#[trigger] operations[i])
}

/// Where there is room for a rectangle for each operation, orders suffice for what
/// is painted.
pub proof fn room_suffices(model: SceneModel, operations: Seq<PaintOperation>)
    requires
        model.has_room(operations.len() as int),
    ensures
        model.replayed(operations).fits(),
        model.replayed(operations).bounds.len() <= model.bounds.len() + operations.len(),
    decreases operations.len(),
{
    if operations.len() > 0 {
        room_suffices(model, operations.drop_last());
    }
}

/// Where orders suffice for all that is painted, they suffice for the first `n`
/// operations.
pub proof fn orders_suffice_before(model: SceneModel, operations: Seq<PaintOperation>, n: int)
    requires
        0 <= n <= operations.len(),
        model.replayed(operations).fits(),
    ensures
        model.replayed(operations.take(n)).fits(),
    decreases operations.len(),
{
    if n == operations.len() {
        assert(operations.take(n) =~= operations);
    } else {
        let rest = operations.drop_last();
        assert(rest.take(n) =~= operations.take(n));
        orders_suffice_before(model, rest, n);
    }
}

/// Where orders suffice for all cached text that is painted, they suffice for the
/// first `n` operations.
proof fn orders_suffice_before_text(
    model: SceneModel,
    operations: Seq<PaintOperation>,
    content_mask: ContentMask,
    transformation: TransformationMatrix,
    n: int,
)
    requires
        0 <= n <= operations.len(),
        model.text_replayed(operations, content_mask, transformation).fits(),
    ensures
        model.text_replayed(operations.take(n), content_mask, transformation).fits(),
    decreases operations.len(),
{
    if n == operations.len() {
        assert(operations.take(n) =~= operations);
    } else {
        let rest = operations.drop_last();
        assert(rest.take(n) =~= operations.take(n));
        orders_suffice_before_text(model, rest, content_mask, transformation, n);
    }
}

/// The handles after those of the first `n` tile updates of a scene were given up.
pub open spec fn updates_released(handles: Map<u64, u64>, scene: Scene, n: int) -> Map<u64, u64>
    decreases scene, n,
{
    if n <= 0 || n > scene.raster_tile_updates@.len() {
        handles
    } else {
        scene_released(
            one_handle_less(
                updates_released(handles, scene, n - 1),
                scene.raster_tile_updates[n - 1].cache.identity.id,
            ),
            scene.raster_tile_updates[n - 1].scene,
        )
    }
}

/// The handles after those of the first `n` batches of a scene were given up.
pub open spec fn batches_released(handles: Map<u64, u64>, scene: Scene, n: int) -> Map<u64, u64>
    decreases scene, n,
{
    if n <= 0 || n > scene.raster_tile_update_batches@.len() {
        handles
    } else {
        scene_released(
            one_handle_less(
                batches_released(handles, scene, n - 1),
                scene.raster_tile_update_batches[n - 1].cache.identity.id,
            ),
            scene.raster_tile_update_batches[n - 1].scene,
        )
    }
}

/// The handles after those within the first `n` surfaces of a scene were given up.
pub open spec fn surfaces_released(
    handles: Map<u64, u64>,
    scene: Scene,
    n: int,
) -> Map<u64, u64>
    decreases scene, n,
{
    if n <= 0 || n > scene.raster_compositor_surfaces@.len() {
        handles
    } else {
        scene_released(
            surfaces_released(handles, scene, n - 1),
            scene.raster_compositor_surfaces[n - 1].scene,
        )
    }
}

/// The handles after a scene was given up: its tile updates and batches hold one
/// each, and so do those of the scenes within it.
pub open spec fn scene_released(handles: Map<u64, u64>, scene: Scene) -> Map<u64, u64>
    decreases
        scene,
        scene.raster_tile_updates@.len() + scene.raster_tile_update_batches@.len()
            + scene.raster_compositor_surfaces@.len() + 1,
{
    let updates = updates_released(handles, scene, scene.raster_tile_updates@.len() as int);
    let batches = batches_released(
        updates,
        scene,
        scene.raster_tile_update_batches@.len() as int,
    );
    surfaces_released(batches, scene, scene.raster_compositor_surfaces@.len() as int)
}

impl Scene {
    /// The contents.
    pub open spec fn view(&self) -> SceneModel {
        SceneModel {
            operations: self.paint_operations@,
            bounds: self.primitive_bounds@,
            layers: self.layer_stack@,
            lists: PrimitiveLists {
                shadows: self.shadows@,
                quads: self.quads@,
                paths: self.paths@,
                underlines: self.underlines@,
                monochrome_sprites: self.monochrome_sprites@,
                polychrome_sprites: self.polychrome_sprites@,
                surfaces: self.surfaces@,
                raster_tiles: self.raster_tiles@,
            },
            updates: self.raster_tile_updates@,
            batches: self.raster_tile_update_batches@,
            compositors: self.raster_compositor_surfaces@,
            trace: self.trace,
        }
    }

    /// A scene in which nothing was painted.
    pub fn new() -> (scene: Scene)
        ensures
            scene@ == SceneModel::empty(),
            scene@.wf(),
    {
        Scene {
            paint_operations: Vec::new(),
            primitive_bounds: BoundsTree::new(),
            layer_stack: Vec::new(),
            shadows: Vec::new(),
            quads: Vec::new(),
            paths: Vec::new(),
            underlines: Vec::new(),
            monochrome_sprites: Vec::new(),
            polychrome_sprites: Vec::new(),
            surfaces: Vec::new(),
            raster_tiles: Vec::new(),
            raster_tile_updates: Vec::new(),
            raster_tile_update_batches: Vec::new(),
            raster_compositor_surfaces: Vec::new(),
            trace: SceneTrace::empty(),
        }
    }

    fn give_up_handles(&self, owners: &mut RasterCacheOwners)
        requires
            old(owners).wf(),
        ensures
            final(owners)@ == scene_released(old(owners)@, *self),
            final(owners).next_id == old(owners).next_id,
            final(owners).wf(),
        decreases *self,
    {
        let ghost before = owners@;
        let mut i: usize = 0;
        while i < self.raster_tile_updates.len()
            invariant
                i <= self.raster_tile_updates@.len(),
                owners@ == updates_released(before, *self, i as int),
                owners.next_id == old(owners).next_id,
                owners.wf(),
            decreases self.raster_tile_updates@.len() - i,
        {
            proof {
                assert(decreases_to!(*self => self.raster_tile_updates[i as int].scene));
            }
            owners.give_up(self.raster_tile_updates[i].cache.identity.id);
            self.raster_tile_updates[i].scene.give_up_handles(owners);
            i = i + 1;
        }
        let ghost updates = owners@;
        let mut j: usize = 0;
        while j < self.raster_tile_update_batches.len()
            invariant
                j <= self.raster_tile_update_batches@.len(),
                owners@ == batches_released(updates, *self, j as int),
                owners.next_id == old(owners).next_id,
                owners.wf(),
            decreases self.raster_tile_update_batches@.len() - j,
        {
            proof {
                assert(decreases_to!(*self => self.raster_tile_update_batches[j as int].scene));
            }
            owners.give_up(self.raster_tile_update_batches[j].cache.identity.id);
            self.raster_tile_update_batches[j].scene.give_up_handles(owners);
            j = j + 1;
        }
        let ghost batches = owners@;
        let mut k: usize = 0;
        while k < self.raster_compositor_surfaces.len()
            invariant
                k <= self.raster_compositor_surfaces@.len(),
                owners@ == surfaces_released(batches, *self, k as int),
                owners.next_id == old(owners).next_id,
                owners.wf(),
            decreases self.raster_compositor_surfaces@.len() - k,
        {
            proof {
                assert(decreases_to!(*self => self.raster_compositor_surfaces[k as int].scene));
            }
            self.raster_compositor_surfaces[k].scene.give_up_handles(owners);
            k = k + 1;
        }
    }

    /// Gives a scene up, with the handles that its updates and batches hold.
    pub fn release(self, owners: &mut RasterCacheOwners)
        requires
            old(owners).wf(),
        ensures
            final(owners)@ == scene_released(old(owners)@, self),
            final(owners).next_id == old(owners).next_id,
            final(owners).wf(),
    {
        self.give_up_handles(owners)
    }

    /// Removes everything that was painted and all that is known of the scene, and
    /// gives up the handles that its updates and batches hold.
    pub fn clear(&mut self, owners: &mut RasterCacheOwners)
        requires
            old(owners).wf(),
        ensures
            final(self)@ == SceneModel::empty(),
            final(self)@.wf(),
            final(owners)@ == scene_released(old(owners)@, *old(self)),
            final(owners).next_id == old(owners).next_id,
            final(owners).wf(),
    {
        self.give_up_handles(owners);
        self.paint_operations.clear();
        self.primitive_bounds.clear();
        self.layer_stack.clear();
        self.shadows.clear();
        self.quads.clear();
        self.paths.clear();
        self.underlines.clear();
        self.monochrome_sprites.clear();
        self.polychrome_sprites.clear();
        self.surfaces.clear();
        self.raster_tiles.clear();
        self.raster_tile_updates.clear();
        self.raster_tile_update_batches.clear();
        self.raster_compositor_surfaces.clear();
        self.trace = SceneTrace::empty();
    }

    /// Notes the frame, the input and the tick that the scene was built for.
    pub fn set_frame_trace_correlation(
        &mut self,
        logical_frame_id: u64,
        input_sequence_id: u64,
        scene_build_tick: Option<FrameTraceDisplayTick>,
    )
        ensures
            final(self)@ == (SceneModel {
                trace: SceneTrace {
                    logical_frame_id,
                    input_sequence_id,
                    scene_build_tick,
                    ..old(self)@.trace
                },
                ..old(self)@
            }),
    {
        self.trace.logical_frame_id = logical_frame_id;
        self.trace.input_sequence_id = input_sequence_id;
        self.trace.scene_build_tick = scene_build_tick;
    }

    /// Notes what the scene was rendered from.
    pub fn set_frame_trace_presentation_token(&mut self, token: PresentationToken)
        ensures
            final(self)@ == (SceneModel {
                trace: SceneTrace { presentation_token: Some(token), ..old(self)@.trace },
                ..old(self)@
            }),
    {
        self.trace.presentation_token = Some(token);
    }

    /// Asks for so many display ticks to pass before the scene is presented.
    pub fn set_frame_trace_diagnostic_hold_ticks(&mut self, hold_ticks: u8)
        ensures
            final(self)@ == (SceneModel {
                trace: SceneTrace {
                    diagnostic_hold_ticks: hold_ticks,
                    last_held_tick_sequence: 0,
                    ..old(self)@.trace
                },
                ..old(self)@
            }),
    {
        self.trace.diagnostic_hold_ticks = hold_ticks;
        self.trace.last_held_tick_sequence = 0;
    }

    /// Notes the presentation attempt and its tick.
    pub fn set_frame_trace_presentation_attempt(
        &mut self,
        gpui_window_frame_id: u64,
        tick: Option<FrameTraceDisplayTick>,
    )
        ensures
            final(self)@ == (SceneModel {
                trace: SceneTrace {
                    gpui_window_frame_id,
                    presentation_tick: tick,
                    ..old(self)@.trace
                },
                ..old(self)@
            }),
    {
        self.trace.gpui_window_frame_id = gpui_window_frame_id;
        self.trace.presentation_tick = tick;
    }

    /// Whether the presentation attempt is to be held. The hold counts down with
    /// every tick of its own that was not counted yet.
    pub fn take_frame_trace_diagnostic_hold(&mut self) -> (held: bool)
        ensures
            held == (old(self)@.trace.diagnostic_hold_ticks > 0),
            final(self)@ == (SceneModel { trace: old(self)@.trace.held(), ..old(self)@ }),
    {
        if self.trace.diagnostic_hold_ticks == 0 {
            return false;
        }
        if let Some(tick) = self.trace.presentation_tick {
            if tick.sequence != 0 && tick.coalesced_count == 1 && tick.sequence
                != self.trace.last_held_tick_sequence {
                self.trace.last_held_tick_sequence = tick.sequence;
                self.trace.diagnostic_hold_ticks = self.trace.diagnostic_hold_ticks - 1;
            }
        }
        true
    }

    /// Fills in an event with what is known of the scene.
    pub fn populate_frame_trace_event(&self, event: &mut FrameTraceEvent, timebase: MachTimebase)
        ensures
            *final(event) == self@.trace.populated(*old(event), timebase),
    {
        event.logical_frame_id = self.trace.logical_frame_id;
        event.input_sequence_id = self.trace.input_sequence_id;
        event.gpui_window_frame_id = self.trace.gpui_window_frame_id;
        event.presentation_token = self.trace.presentation_token;
        if let Some(tick) = self.trace.scene_build_tick {
            event.scene_build_display_tick_sequence = tick.sequence;
            event.scene_build_target_display_time_ns = tick.target_time_ns(timebase);
            event.scene_build_tick_flags = tick.flags;
            event.flags = event.flags | tick.flags;
        } else {
            event.scene_build_tick_flags = NO_TICK_FLAGS;
            event.flags = event.flags | NO_TICK_FLAGS;
        }
        if let Some(tick) = self.trace.presentation_tick {
            event.display_id = tick.display_id as u64;
            event.display_current_time_ns = tick.current_time_ns(timebase);
            event.display_refresh_period_ns =
            if tick.flags & FLAG_DISPLAY_REFRESH_INVALID == 0 {
                tick.refresh_period_ns
            } else {
                0
            };
            event.display_current_host_time_raw = tick.current_host_time_raw;
            event.display_output_host_time_raw = tick.output_host_time_raw;
            event.display_video_refresh_period = tick.video_refresh_period;
            event.display_video_time_scale = tick.video_time_scale as i64;
            event.display_rate_scalar_bits = tick.rate_scalar.bits;
            event.presentation_display_tick_sequence = tick.sequence;
            event.presentation_target_display_time_ns = tick.target_time_ns(timebase);
            event.presentation_tick_flags = tick.flags;
            event.coalesced_display_tick_count = tick.coalesced_count;
            event.flags = event.flags | tick.flags;
        } else {
            event.presentation_tick_flags = NO_TICK_FLAGS;
            event.flags = event.flags | NO_TICK_FLAGS;
        }
        let summary = self.trace.summary;
        event.shadow_count = summary.shadow_count;
        event.quad_count = summary.quad_count;
        event.path_count = summary.path_count;
        event.sprite_count = summary.sprite_count;
        event.surface_count = summary.surface_count;
        event.shadow_expanded_area_device_px2 = summary.shadow_expanded_area_device_px2;
        event.quad_area_device_px2 = summary.quad_area_device_px2;
        event.path_segment_count = summary.path_segment_count;
    }

    /// The number of operations painted.
    pub fn len(&self) -> (len: usize)
        ensures
            len as int == self@.operations.len(),
    {
        self.paint_operations.len()
    }

    /// Enters a layer: what is painted until it is left shares its order.
    pub fn push_layer(&mut self, bounds: Bounds)
        requires
            old(self)@.wf(),
            old(self)@.layer_pushed(bounds).fits(),
        ensures
            final(self)@ == old(self)@.layer_pushed(bounds),
            final(self)@.wf(),
    {
        let order: u32 = self.primitive_bounds.insert(bounds);
        self.layer_stack.push(order);
        self.paint_operations.push(PaintOperation::StartLayer(bounds));
    }

    /// Leaves the innermost layer.
    pub fn pop_layer(&mut self)
        requires
            old(self)@.wf(),
        ensures
            final(self)@ == old(self)@.layer_popped(),
            final(self)@.wf(),
    {
        self.layer_stack.pop();
        self.paint_operations.push(PaintOperation::EndLayer);
        proof {
            assert(self@.layers =~= old(self)@.outer_layers());
        }
    }

    fn place(&mut self, bounds: Bounds) -> (order: DrawOrder)
        requires
            old(self)@.wf(),
            old(self)@.ordered(bounds).fits(),
        ensures
            order == old(self)@.order_of(bounds),
            final(self)@ == old(self)@.ordered(bounds),
            final(self)@.wf(),
    {
        if self.layer_stack.len() > 0 {
            self.layer_stack[self.layer_stack.len() - 1]
        } else {
            self.primitive_bounds.insert(bounds)
        }
    }

    /// Inserts a primitive, unless nothing of it is left inside its content mask.
    pub fn insert_primitive(&mut self, primitive: Primitive)
        requires
            old(self)@.wf(),
            old(self)@.inserted(primitive).fits(),
        ensures
            final(self)@ == old(self)@.inserted(primitive),
            final(self)@.wf(),
    {
        let clipped_bounds = primitive.bounds().intersect(primitive.content_mask().bounds);
        if clipped_bounds.is_empty() {
            return;
        }
        self.trace.summary = count_in(self.trace.summary, primitive);
        let order: DrawOrder = self.place(clipped_bounds);
        let path_id = PathId(self.paths.len());
        let mut placed = primitive;
        match primitive {
            Primitive::Shadow(mut item) => {
                item.order = order;
                self.shadows.push(item);
                placed = Primitive::Shadow(item);
            },
            Primitive::Quad(mut item) => {
                item.order = order;
                self.quads.push(item);
                placed = Primitive::Quad(item);
            },
            Primitive::Path(mut item) => {
                item.order = order;
                item.id = path_id;
                self.paths.push(item);
                placed = Primitive::Path(item);
            },
            Primitive::Underline(mut item) => {
                item.order = order;
                self.underlines.push(item);
                placed = Primitive::Underline(item);
            },
            Primitive::MonochromeSprite(mut item) => {
                item.order = order;
                self.monochrome_sprites.push(item);
                placed = Primitive::MonochromeSprite(item);
            },
            Primitive::PolychromeSprite(mut item) => {
                item.order = order;
                self.polychrome_sprites.push(item);
                placed = Primitive::PolychromeSprite(item);
            },
            Primitive::Surface(mut item) => {
                item.order = order;
                self.surfaces.push(item);
                placed = Primitive::Surface(item);
            },
            Primitive::RasterTile(mut item) => {
                item.order = order;
                self.raster_tiles.push(item);
                placed = Primitive::RasterTile(item);
            },
        }
        self.paint_operations.push(PaintOperation::Primitive(placed));
    }

    fn paint(&mut self, operation: PaintOperation)
        requires
            old(self)@.wf(),
            old(self)@.painted(operation).fits(),
        ensures
            final(self)@ == old(self)@.painted(operation),
            final(self)@.wf(),
    {
        match operation {
            PaintOperation::Primitive(primitive) => self.insert_primitive(primitive),
            PaintOperation::StartLayer(bounds) => self.push_layer(bounds),
            PaintOperation::EndLayer => self.pop_layer(),
        }
    }

    fn paint_range(&mut self, operations: &Vec<PaintOperation>, start: usize, end: usize)
        requires
            old(self)@.wf(),
            start <= end <= operations@.len(),
            old(self)@.replayed(operations@.subrange(start as int, end as int)).fits(),
        ensures
            final(self)@ == old(self)@.replayed(operations@.subrange(start as int, end as int)),
            final(self)@.wf(),
    {
        let ghost before = self@;
        let ghost part = operations@.subrange(start as int, end as int);
        let mut i: usize = start;
        proof {
            assert(part.take(0) =~= Seq::<PaintOperation>::empty());
        }
        while i < end
            invariant
                start <= i <= end <= operations@.len(),
                part == operations@.subrange(start as int, end as int),
                self@.wf(),
                self@ == before.replayed(part.take(i - start)),
                before.replayed(part).fits(),
            decreases end - i,
        {
            let operation = operations[i];
            proof {
                let next = part.take(i - start + 1);
                assert(next.last() == operation);
                assert(next.drop_last() =~= part.take(i - start));
                orders_suffice_before(before, part, i - start + 1);
            }
            self.paint(operation);
            i = i + 1;
        }
        proof {
            assert(part.take(end - start) =~= part);
        }
    }

    /// Paints once more what another scene has painted.
    pub fn replay(&mut self, start: usize, end: usize, prev_scene: &Scene)
        requires
            old(self)@.wf(),
            start <= end <= prev_scene@.operations.len(),
            old(self)@.replayed(
                prev_scene@.operations.subrange(start as int, end as int),
            ).fits(),
        ensures
            final(self)@ == old(self)@.replayed(
                prev_scene@.operations.subrange(start as int, end as int),
            ),
            final(self)@.wf(),
    {
        self.paint_range(&prev_scene.paint_operations, start, end)
    }

    /// Copies what was painted, unless a surface or a raster tile is among it.
    pub fn clone_vector_paint(&self, start: usize, end: usize) -> (operations: Option<
        Vec<PaintOperation>,
    >)
        requires
            start <= end <= self@.operations.len(),
        ensures
            operations is Some <==> all_vector_paint(
                self@.operations.subrange(start as int, end as int),
            ),
            operations is Some ==> operations->0@ == self@.operations.subrange(
                start as int,
                end as int,
            ),
    {
        let ghost part = self@.operations.subrange(start as int, end as int);
        let mut copied: Vec<PaintOperation> = Vec::new();
        let mut i: usize = start;
        while i < end
            invariant
                start <= i <= end <= self@.operations.len(),
                part == self@.operations.subrange(start as int, end as int),
                copied@ =~= part.take(i - start),
                all_vector_paint(part.take(i - start)),
            decreases end - i,
        {
            let operation = self.paint_operations[i];
            assert(part[i - start] == operation);
            match operation {
                PaintOperation::Primitive(Primitive::Surface(_)) => {
                    assert(!is_vector_paint(part[i - start]));
                    return None;
                },
                PaintOperation::Primitive(Primitive::RasterTile(_)) => {
                    assert(!is_vector_paint(part[i - start]));
                    return None;
                },
                _ => {},
            }
            copied.push(operation);
            i = i + 1;
        }
        proof {
            assert(part.take(end - start) =~= part);
        }
        Some(copied)
    }

    /// Paints operations that were captured under a transform. The geometry of each
    /// under the transform was computed; that of a layer's end counts for nothing.
    pub fn replay_vector_transform(
        &mut self,
        operations: &Vec<PaintOperation>,
        geometry: &Vec<TransformedGeometry>,
    )
        requires
            old(self)@.wf(),
            geometry@.len() == operations@.len(),
            old(self)@.replayed(transformed_paint(operations@, geometry@)).fits(),
        ensures
            final(self)@ == old(self)@.replayed(transformed_paint(operations@, geometry@)),
            final(self)@.wf(),
    {
        let ghost before = self@;
        let ghost paint = transformed_paint(operations@, geometry@);
        let mut i: usize = 0;
        proof {
            assert(paint.take(0) =~= Seq::<PaintOperation>::empty());
        }
        while i < operations.len()
            invariant
                i <= operations@.len(),
                geometry@.len() == operations@.len(),
                paint == transformed_paint(operations@, geometry@),
                self@.wf(),
                self@ == before.replayed(paint.take(i as int)),
                before.replayed(paint).fits(),
            decreases operations@.len() - i,
        {
            proof {
                let next = paint.take(i + 1);
                assert(next.last() == transformed_operation(
                    operations@[i as int],
                    geometry@[i as int],
                ));
                assert(next.drop_last() =~= paint.take(i as int));
                orders_suffice_before(before, paint, i + 1);
            }
            match &operations[i] {
                PaintOperation::Primitive(primitive) => {
                    self.insert_primitive(primitive.transformed(geometry[i]));
                },
                PaintOperation::StartLayer(_) => {
                    self.push_layer(geometry[i].bounds);
                },
                PaintOperation::EndLayer => {
                    self.pop_layer();
                },
            }
            i = i + 1;
        }
        proof {
            assert(paint.take(i as int) =~= paint);
        }
    }

    /// Copies what was painted, if it is layers and sprites only.
    pub fn clone_text_paint(&self, start: usize, end: usize) -> (operations: Option<
        Vec<PaintOperation>,
    >)
        requires
            start <= end <= self@.operations.len(),
        ensures
            operations is Some <==> all_text_paint(
                self@.operations.subrange(start as int, end as int),
            ),
            operations is Some ==> operations->0@ == self@.operations.subrange(
                start as int,
                end as int,
            ),
    {
        let ghost part = self@.operations.subrange(start as int, end as int);
        let mut copied: Vec<PaintOperation> = Vec::new();
        let mut i: usize = start;
        while i < end
            invariant
                start <= i <= end <= self@.operations.len(),
                part == self@.operations.subrange(start as int, end as int),
                copied@ =~= part.take(i - start),
                all_text_paint(part.take(i - start)),
            decreases end - i,
        {
            let operation = self.paint_operations[i];
            assert(part[i - start] == operation);
            match operation {
                PaintOperation::Primitive(Primitive::MonochromeSprite(_)) => {},
                PaintOperation::Primitive(Primitive::PolychromeSprite(_)) => {},
                PaintOperation::Primitive(_) => {
                    assert(!is_text_paint(part[i - start]));
                    return None;
                },
                _ => {},
            }
            copied.push(operation);
            i = i + 1;
        }
        proof {
            assert(part.take(end - start) =~= part);
        }
        Some(copied)
    }

    fn paint_text(
        &mut self,
        operation: PaintOperation,
        content_mask: ContentMask,
        transformation: TransformationMatrix,
    )
        requires
            old(self)@.wf(),
            old(self)@.text_painted(operation, content_mask, transformation).fits(),
            is_text_paint(operation),
        ensures
            final(self)@ == old(self)@.text_painted(operation, content_mask, transformation),
            final(self)@.wf(),
    {
        match operation {
            PaintOperation::StartLayer(bounds) => {
                let clipped_bounds = bounds.intersect(content_mask.bounds);
                let order: DrawOrder = if !clipped_bounds.is_empty() {
                    self.primitive_bounds.insert(clipped_bounds)
                } else if self.layer_stack.len() > 0 {
                    self.layer_stack[self.layer_stack.len() - 1]
                } else {
                    u32::MAX
                };
                self.layer_stack.push(order);
            },
            PaintOperation::EndLayer => {
                self.layer_stack.pop();
                proof {
                    assert(self@.layers =~= old(self)@.outer_layers());
                }
            },
            PaintOperation::Primitive(Primitive::MonochromeSprite(template)) => {
                let mut sprite = template;
                sprite.content_mask = content_mask;
                sprite.transformation = transformation;
                sprite.order = self.place(sprite.bounds);
                self.monochrome_sprites.push(sprite);
            },
            PaintOperation::Primitive(Primitive::PolychromeSprite(template)) => {
                let mut sprite = template;
                sprite.content_mask = content_mask;
                sprite.transformation = transformation;
                sprite.order = self.place(sprite.bounds);
                self.polychrome_sprites.push(sprite);
            },
            PaintOperation::Primitive(_) => {},
        }
    }

    /// Paints cached text in another place, under a mask and a transformation. The
    /// rectangle of each layer and sprite in that place was computed; that of a
    /// layer's end counts for nothing.
    pub fn replay_cached_text(
        &mut self,
        operations: &Vec<PaintOperation>,
        places: &Vec<Bounds>,
        content_mask: ContentMask,
        transformation: TransformationMatrix,
    )
        requires
            old(self)@.wf(),
            places@.len() == operations@.len(),
            all_text_paint(operations@),
            old(self)@.text_replayed(
                moved_text(operations@, places@),
                content_mask,
                transformation,
            ).fits(),
        ensures
            final(self)@ == old(self)@.text_replayed(
                moved_text(operations@, places@),
                content_mask,
                transformation,
            ),
            final(self)@.wf(),
    {
        let ghost before = self@;
        let ghost moved = moved_text(operations@, places@);
        let mut i: usize = 0;
        proof {
            assert(moved.take(0) =~= Seq::<PaintOperation>::empty());
        }
        while i < operations.len()
            invariant
                0 <= i <= operations@.len(),
                places@.len() == operations@.len(),
                moved == moved_text(operations@, places@),
                self@.wf(),
                all_text_paint(operations@),
                before.text_replayed(moved, content_mask, transformation).fits(),
                self@ == before.text_replayed(
                    moved.take(i as int),
                    content_mask,
                    transformation,
                ),
            decreases operations@.len() - i,
        {
            let operation = move_text(operations[i], places[i]);
            proof {
                let next = moved.take(i + 1);
                assert(next.last() == operation);
                assert(next.drop_last() =~= moved.take(i as int));
                assert(is_text_paint(operations@[i as int]));
                orders_suffice_before_text(before, moved, content_mask, transformation, i + 1);
            }
            self.paint_text(operation, content_mask, transformation);
            i = i + 1;
        }
        proof {
            assert(moved.take(i as int) =~= moved);
        }
    }

    /// Sorts the primitives for drawing: by order, sprites of one order by their
    /// part of the atlas.
    pub fn finish(&mut self)
        ensures
            old(self)@.finished_as(final(self)@),
    {
        sort(&mut self.shadows);
        sort(&mut self.quads);
        sort(&mut self.paths);
        sort(&mut self.underlines);
        sort(&mut self.monochrome_sprites);
        sort(&mut self.polychrome_sprites);
        sort(&mut self.surfaces);
        sort(&mut self.raster_tiles);
    }
}

impl Default for Scene {
    fn default() -> (scene: Scene)
        ensures
            scene@ == SceneModel::empty(),
            scene@.wf(),
    {
        Scene::new()
    }
}

/// Finishing a scene once more changes nothing.
pub proof fn finishing_twice_is_finishing_once(
    painted: SceneModel,
    once: SceneModel,
    twice: SceneModel,
)
    requires
        painted.finished_as(once),
        once.finished_as(twice),
    ensures
        twice == once,
{
    sorted_stays(once.lists.shadows, twice.lists.shadows);
    sorted_stays(once.lists.quads, twice.lists.quads);
    sorted_stays(once.lists.paths, twice.lists.paths);
    sorted_stays(once.lists.underlines, twice.lists.underlines);
    sorted_stays(once.lists.monochrome_sprites, twice.lists.monochrome_sprites);
    sorted_stays(once.lists.polychrome_sprites, twice.lists.polychrome_sprites);
    sorted_stays(once.lists.surfaces, twice.lists.surfaces);
    sorted_stays(once.lists.raster_tiles, twice.lists.raster_tiles);
}

proof fn sorted_stays<T: Keyed>(once: Seq<T>, twice: Seq<T>)
    requires
        ascending(once),
        stably_sorted(once, twice),
    ensures
        twice == once,
{
    assert(stably_sorted(once, once));
    stable_order_is_unique(once, once, twice);
}

/// Whether two scenes have painted the same.
pub open spec fn same_paint(a: SceneModel, b: SceneModel) -> bool {
    &&& a.operations == b.operations
    &&& a.bounds == b.bounds
    &&& a.layers == b.layers
    &&& a.lists == b.lists
    &&& a.trace.summary == b.trace.summary
}

/// Whether painting the recorded operations again, from nothing, paints the same.
pub open spec fn reproducible(model: SceneModel) -> bool {
    same_paint(SceneModel::empty().replayed(model.operations), model)
}

/// What a scene records suffices to paint it again: an empty scene is
/// reproducible, and painting anything keeps it so.
pub proof fn a_recording_reproduces_the_scene(model: SceneModel, operation: PaintOperation)
    ensures
        reproducible(SceneModel::empty()),
        reproducible(model) ==> reproducible(model.painted(operation)),
{
    if reproducible(model) {
        let again = SceneModel::empty().replayed(model.operations);
        let after = model.painted(operation);
        match operation {
            PaintOperation::Primitive(primitive) => {
                if !primitive.clipped().empty() {
                    let placed = primitive.placed(
                        model.order_of(primitive.clipped()),
                        PathId(model.lists.paths.len() as usize),
                    );
                    assert(after.operations.drop_last() =~= model.operations);
                    assert(after.operations.last() == PaintOperation::Primitive(placed));
                    assert(placed.clipped() == primitive.clipped());
                    assert(same_paint(again.inserted(placed), after));
                }
            },
            _ => {
                assert(after.operations.drop_last() =~= model.operations);
                assert(after.operations.last() == operation);
                assert(same_paint(again.painted(operation), after));
            },
        }
    }
}

/// A hold lasts as many display ticks as were asked for: a tick that is counted
/// shortens it by one, the same tick is not counted twice, and a coalesced or a
/// missing tick is not counted at all.
pub proof fn a_hold_counts_distinct_ticks(trace: SceneTrace)
    requires
        trace.diagnostic_hold_ticks > 0,
    ensures
        trace.tick_counts() ==> trace.held().diagnostic_hold_ticks + 1
            == trace.diagnostic_hold_ticks,
        !trace.tick_counts() ==> trace.held() == trace,
        trace.held().held() == trace.held(),
{
}

/// An invalid display time is never traced as a valid one.
pub proof fn invalid_times_are_traced_as_zero(
    trace: SceneTrace,
    event: FrameTraceEvent,
    timebase: MachTimebase,
)
    requires
        trace.presentation_tick is Some,
    ensures
        ({
            let tick = trace.presentation_tick->0;
            let populated = trace.populated(event, timebase);
            &&& tick.flags & FLAG_DISPLAY_CURRENT_INVALID != 0
                ==> populated.display_current_time_ns == 0
            &&& tick.flags & FLAG_DISPLAY_TARGET_INVALID != 0
                ==> populated.presentation_target_display_time_ns == 0
            &&& tick.flags & FLAG_DISPLAY_REFRESH_INVALID != 0
                ==> populated.display_refresh_period_ns == 0
        }),
{
}

/// The items of a list sorted for drawing.
pub open spec fn sorted_of<T: Keyed>(items: Seq<T>) -> Seq<T> {
    choose|sorted: Seq<T>| stably_sorted(items, sorted)
}

/// The primitives of a scene sorted for drawing.
pub open spec fn finished_lists(lists: PrimitiveLists) -> PrimitiveLists {
    PrimitiveLists {
        shadows: sorted_of(lists.shadows),
        quads: sorted_of(lists.quads),
        paths: sorted_of(lists.paths),
        underlines: sorted_of(lists.underlines),
        monochrome_sprites: sorted_of(lists.monochrome_sprites),
        polychrome_sprites: sorted_of(lists.polychrome_sprites),
        surfaces: sorted_of(lists.surfaces),
        raster_tiles: sorted_of(lists.raster_tiles),
    }
}

/// There is only one way to finish a scene.
pub proof fn finishing_is_determined(painted: SceneModel, finished: SceneModel)
    requires
        painted.finished_as(finished),
    ensures
        finished == (SceneModel { lists: finished_lists(painted.lists), ..painted }),
{
    only_sorted(painted.lists.shadows, finished.lists.shadows);
    only_sorted(painted.lists.quads, finished.lists.quads);
    only_sorted(painted.lists.paths, finished.lists.paths);
    only_sorted(painted.lists.underlines, finished.lists.underlines);
    only_sorted(painted.lists.monochrome_sprites, finished.lists.monochrome_sprites);
    only_sorted(painted.lists.polychrome_sprites, finished.lists.polychrome_sprites);
    only_sorted(painted.lists.surfaces, finished.lists.surfaces);
    only_sorted(painted.lists.raster_tiles, finished.lists.raster_tiles);
}

proof fn only_sorted<T: Keyed>(items: Seq<T>, sorted: Seq<T>)
    requires
        stably_sorted(items, sorted),
    ensures
        sorted == sorted_of(items),
{
    stable_order_is_unique(items, sorted, sorted_of(items));
}

} // verus!
