//! What elements put into a scene, what captures hold, and how handles are counted.
use vstd::prelude::*;

use crate::compositor_transform::{RasterCompositorTransform, TransformModel};
use crate::float_bits::Float32;
use crate::geometry::{Bounds, ContentMask, Point};
use crate::gpu_types::{corner, device_rank, signed_gutter, DeviceTraits};
use crate::number_laws::{a_union_is_the_smallest_around_both, exponent, fraction, negative, value};
use crate::path::{PathModel, PathVertex, Triangle};
use crate::primitive::{PaintOperation, Primitive, RasterTile, TransformationMatrix};
use crate::raster_cache::{one_handle_less, one_more_handle, RasterTileHit, RasterTileMiss};
use crate::raster_elements::{
    around_captures, capture_paint, capture_targets, captures_released, composed_tile, shown_tile,
    unsigned_gutter, CapturePlace, TileCapture,
};
use crate::scene::{
    batches_released, scene_released, surfaces_released, updates_released, RasterTileUpdateTarget,
    Scene,
};
use crate::time::TimePoint;
use crate::vector_scene_cache::{
    CachedVectorSceneTranslation, CaptureModel, FrameCounts, VectorScenePrepaintState,
    VectorSceneTransform,
};

verus! {

/// Whether a transform can be used: its scale is above zero and finite, and it moves things
/// by a finite amount.
pub open spec fn usable(transform: VectorSceneTransform) -> bool {
    &&& exponent(transform.scale) < 255 && value(transform.scale) > 0
    &&& exponent(transform.translation.x) < 255
    &&& exponent(transform.translation.y) < 255
}

proof fn valid_is_usable(transform: VectorSceneTransform)
    ensures
        transform.valid() == usable(transform),
{
    crate::number_laws::comparing_goes_by_value(transform.scale, transform.scale);
    crate::number_laws::comparing_goes_by_value(transform.translation.x, transform.scale);
    crate::number_laws::comparing_goes_by_value(transform.translation.y, transform.scale);
}

/// A capture is replayed exactly where it is ready, holds the same content at the same scale
/// factor and covers the viewport, and where both transforms and the map between them can be
/// used; and by that map.
pub proof fn a_capture_is_replayed_where_it_fits<C>(
    element: CachedVectorSceneTranslation<C>,
    capture: CaptureModel,
    scale_factor_bits: u32,
    computed: VectorSceneTransform,
)
    ensures
        ({
            let replay = element.replayable(capture, scale_factor_bits, computed);
            &&& replay is Some <==> {
                &&& capture.ready
                &&& capture.revision == element.revision
                &&& capture.scale_factor_bits == scale_factor_bits
                &&& capture.coverage.0.encloses(element.viewport)
                &&& usable(element.transform)
                &&& usable(capture.captured_transform)
                &&& usable(computed)
            }
            &&& replay is Some ==> replay->0 == computed
        }),
{
    valid_is_usable(element.transform);
    valid_is_usable(capture.captured_transform);
    valid_is_usable(computed);
}

/// Whether operations hold neither a surface nor a raster tile.
pub open spec fn only_vectors(operations: Seq<PaintOperation>) -> bool {
    forall|i: int|
        0 <= i < operations.len() ==> match #[trigger] operations[i] {
            PaintOperation::Primitive(Primitive::Surface(_)) => false,
            PaintOperation::Primitive(Primitive::RasterTile(_)) => false,
            _ => true,
        }
}

/// A capture is one of the content that the element shows, as it shows it. It holds all that
/// was painted where that is nothing but vectors and nothing was recorded besides; else
/// nothing. It is ready where it holds all, there is a place to keep it in and the transform
/// can be used.
pub proof fn a_capture_holds_all_or_nothing<C>(
    element: CachedVectorSceneTranslation<C>,
    prepaint: VectorScenePrepaintState,
    operations: Seq<PaintOperation>,
    before: FrameCounts,
    after: FrameCounts,
    scale_factor_bits: u32,
)
    ensures
        ({
            let capture = element.captured(
                prepaint,
                operations,
                before,
                after,
                scale_factor_bits,
            );
            let all = prepaint.prepaint_safe && only_vectors(operations) && after.mouse_listeners
                == before.mouse_listeners && after.input_handlers == before.input_handlers
                && after.cursor_styles == before.cursor_styles;
            &&& capture.revision == element.revision
            &&& capture.coverage == element.coverage
            &&& capture.captured_transform == element.transform
            &&& capture.scale_factor_bits == scale_factor_bits
            &&& all ==> capture.operations == operations
            &&& !all ==> capture.operations.len() == 0
            &&& capture.ready <==> all && prepaint.cache_id_available && usable(element.transform)
            &&& CachedVectorSceneTranslation::<C>::capturable(prepaint, operations, before, after)
                == all
        }),
{
    valid_is_usable(element.transform);
    let vectors = crate::scene::all_vector_paint(operations);
    if vectors {
        assert forall|i: int| 0 <= i < operations.len() implies match #[trigger] operations[i] {
            PaintOperation::Primitive(Primitive::Surface(_)) => false,
            PaintOperation::Primitive(Primitive::RasterTile(_)) => false,
            _ => true,
        } by {
            assert(crate::scene::is_vector_paint(operations[i]));
        }
    }
    if only_vectors(operations) {
        assert forall|i: int| 0 <= i < operations.len() implies crate::scene::is_vector_paint(
            #[trigger] operations[i],
        ) by {}
    }
}

/// The transforms that change nothing scale by one and move by nothing.
pub proof fn the_identity_changes_nothing()
    ensures
        ({
            let scale = VectorSceneTransform::identity().scale;
            &&& is_one(scale)
            &&& value(VectorSceneTransform::identity().translation.x) == 0
            &&& value(VectorSceneTransform::identity().translation.y) == 0
            &&& RasterCompositorTransform::identity().scale == scale
            &&& value(RasterCompositorTransform::identity().translation.x) == 0
            &&& value(RasterCompositorTransform::identity().translation.y) == 0
            &&& usable(VectorSceneTransform::identity())
            &&& RasterCompositorTransform::identity().valid()
        }),
{
    valid_is_usable(VectorSceneTransform::identity());
}

/// Whether a number is one.
pub open spec fn is_one(number: Float32) -> bool {
    !negative(number) && exponent(number) == 127 && fraction(number) == 0
}

/// The map that moves nothing takes each coordinate once for itself, not at all for the
/// other, and adds nothing.
pub proof fn the_unit_moves_nothing()
    ensures
        ({
            let unit = TransformationMatrix::spec_unit();
            &&& is_one(unit.first_row.x) && value(unit.first_row.y) == 0
            &&& value(unit.second_row.x) == 0 && is_one(unit.second_row.y)
            &&& value(unit.translation.x) == 0 && value(unit.translation.y) == 0
        }),
{
}

/// A transform of the compositor is taken up exactly where its scale is above zero and
/// finite, it moves things by a finite amount, and one of its numbers is another than
/// before. It then is the current one, under the next revision, at the time of the update.
pub proof fn an_update_is_taken_up_where_it_changes_something(
    model: TransformModel,
    transform: RasterCompositorTransform,
    updated_at: TimePoint,
)
    requires
        model.wf(),
        model.generation < u64::MAX - 1,
    ensures
        transform.valid() <==> exponent(transform.scale) < 255 && value(transform.scale) > 0
            && exponent(transform.translation.x) < 255 && exponent(transform.translation.y) < 255,
        model.takes(transform) <==> transform.valid() && (value(transform.scale) != value(
            model.current.scale,
        ) || value(transform.translation.x) != value(model.current.translation.x) || value(
            transform.translation.y,
        ) != value(model.current.translation.y)),
        model.updated(transform, updated_at).current == transform,
        model.updated(transform, updated_at).revision() == model.revision() + 1,
        model.updated(transform, updated_at).id == model.id,
        model.updated(transform, updated_at).updates.last().updated_at == updated_at,
        model.updated(transform, updated_at).updates.last().revision == model.revision() + 1,
{
    crate::number_laws::comparing_goes_by_value(transform.scale, model.current.scale);
    crate::number_laws::comparing_goes_by_value(model.current.scale, transform.scale);
    crate::number_laws::comparing_goes_by_value(
        transform.translation.x,
        model.current.translation.x,
    );
    crate::number_laws::comparing_goes_by_value(
        model.current.translation.x,
        transform.translation.x,
    );
    crate::number_laws::comparing_goes_by_value(
        transform.translation.y,
        model.current.translation.y,
    );
    crate::number_laws::comparing_goes_by_value(
        model.current.translation.y,
        transform.translation.y,
    );
}

/// A resident tile is shown as the tile that was found, with its own gutter, where it was
/// asked for and under the mask of the window.
pub proof fn a_shown_tile_is_the_one_found(
    hit: RasterTileHit,
    bounds: Bounds,
    content_mask: ContentMask,
)
    ensures
        ({
            let tile = shown_tile(hit, bounds, content_mask);
            &&& tile.bounds == bounds
            &&& tile.content_mask == content_mask
            &&& tile.cache_id == hit.cache.identity.id
            &&& tile.key == hit.key.number
            &&& tile.revision == hit.revision.number
            &&& tile.gutter == hit.gutter
        }),
{
}

/// What was rasterized for a miss is shown as the tile that was missed, where it belongs,
/// as a whole.
pub proof fn a_composed_tile_is_the_one_missed(
    cache_id: u64,
    miss: RasterTileMiss,
    bounds: Bounds,
    gutter: i32,
)
    ensures
        ({
            let tile = composed_tile(cache_id, miss, bounds, gutter);
            &&& tile.bounds == bounds
            &&& tile.content_mask.bounds == bounds
            &&& tile.cache_id == cache_id
            &&& tile.key == miss.key.number
            &&& tile.revision == miss.revision.number
            &&& gutter >= 0 ==> tile.gutter == gutter
            &&& signed_gutter(tile.gutter) == gutter
        }),
{
}

/// A gutter keeps its bits: whatever the sign, it comes back as it was.
pub proof fn a_gutter_keeps_its_bits(signed: i32, unsigned: u32)
    ensures
        signed_gutter(unsigned_gutter(signed)) == signed,
        unsigned_gutter(signed_gutter(unsigned)) == unsigned,
        signed >= 0 ==> unsigned_gutter(signed) == signed,
        unsigned <= i32::MAX ==> signed_gutter(unsigned) == unsigned,
{
}

/// The rectangle around captures lies around the source of each of them, and inside every
/// other rectangle that does; around one it is that source itself.
pub proof fn captures_lie_within_their_rectangle(
    captures: Seq<TileCapture>,
    n: int,
    other: Bounds,
)
    requires
        0 < n <= captures.len(),
        other.finite(),
        forall|i: int| 0 <= i < n ==> (#[trigger] captures[i]).source_bounds.finite(),
    ensures
        n == 1 ==> around_captures(captures, n) == captures[0].source_bounds,
        around_captures(captures, n).finite(),
        forall|i: int|
            0 <= i < n ==> around_captures(captures, n).encloses(
                (#[trigger] captures[i]).source_bounds,
            ),
        (forall|i: int| 0 <= i < n ==> other.encloses((#[trigger] captures[i]).source_bounds))
            ==> other.encloses(around_captures(captures, n)),
    decreases n,
{
    assert(captures[n - 1].source_bounds.finite());
    if n > 1 {
        captures_lie_within_their_rectangle(captures, n - 1, other);
        a_union_is_the_smallest_around_both(
            around_captures(captures, n - 1),
            captures[n - 1].source_bounds,
            other,
        );
    }
}

/// The rectangle around the targets of a batch lies around each of them, and inside every
/// other rectangle that does; around one it is the target's own.
pub proof fn targets_lie_within_their_rectangle(
    targets: Seq<RasterTileUpdateTarget>,
    n: int,
    other: Bounds,
)
    requires
        0 < n <= targets.len(),
        other.finite(),
        forall|i: int| 0 <= i < n ==> (#[trigger] targets[i]).source_bounds.finite(),
    ensures
        n == 1 ==> crate::frame_plan::around_targets(targets, n) == targets[0].source_bounds,
        crate::frame_plan::around_targets(targets, n).finite(),
        forall|i: int|
            0 <= i < n ==> crate::frame_plan::around_targets(targets, n).encloses(
                (#[trigger] targets[i]).source_bounds,
            ),
        (forall|i: int| 0 <= i < n ==> other.encloses((#[trigger] targets[i]).source_bounds))
            ==> other.encloses(crate::frame_plan::around_targets(targets, n)),
    decreases n,
{
    assert(targets[n - 1].source_bounds.finite());
    if n > 1 {
        targets_lie_within_their_rectangle(targets, n - 1, other);
        a_union_is_the_smallest_around_both(
            crate::frame_plan::around_targets(targets, n - 1),
            targets[n - 1].source_bounds,
            other,
        );
    }
}

/// Every capture has a target that rasterizes the tile that was missed from where its
/// contents come from, and is shown as that tile where it belongs.
pub proof fn every_capture_is_rasterized_and_shown(
    captures: Seq<TileCapture>,
    places: Seq<CapturePlace>,
    gutter: i32,
    i: int,
)
    requires
        0 <= i < captures.len(),
    ensures
        ({
            let targets = capture_targets(captures, places);
            let paint = capture_paint(captures, places, gutter);
            &&& targets.len() == captures.len()
            &&& targets[i].key == captures[i].miss.key
            &&& targets[i].revision == captures[i].miss.revision
            &&& targets[i].source_bounds == places[i].source_bounds
            &&& paint.len() == captures.len()
            &&& paint[i] is Primitive
            &&& paint[i]->Primitive_0 matches Primitive::RasterTile(tile) && {
                &&& tile.bounds == places[i].composition_bounds
                &&& tile.content_mask.bounds == places[i].composition_bounds
                &&& tile.cache_id == captures[0].miss.cache.identity.id
                &&& tile.key == captures[i].miss.key.number
                &&& tile.revision == captures[i].miss.revision.number
                &&& signed_gutter(tile.gutter) == gutter
            }
        }),
{
}

/// The handles of a cache; none where it is not held.
pub open spec fn count(handles: Map<u64, u64>, id: u64) -> int {
    if handles.contains_key(id) {
        handles[id] as int
    } else {
        0
    }
}

/// Whether every cache that is held has a handle.
pub open spec fn all_held(handles: Map<u64, u64>) -> bool {
    forall|id: u64| #[trigger] handles.contains_key(id) ==> handles[id] > 0
}

/// What is left after so many were given up.
pub open spec fn left_of(handles: int, given_up: int) -> int {
    if handles > given_up {
        handles - given_up
    } else {
        0
    }
}

/// Another handle is counted for its cache alone, and giving one up counts it off again for
/// that cache alone.
pub proof fn handles_are_counted_for_their_cache(handles: Map<u64, u64>, id: u64, other: u64)
    requires
        all_held(handles),
    ensures
        handles.contains_key(id) && handles[id] < u64::MAX ==> {
            &&& all_held(one_more_handle(handles, id))
            &&& count(one_more_handle(handles, id), id) == count(handles, id) + 1
            &&& other != id ==> count(one_more_handle(handles, id), other) == count(handles, other)
        },
        all_held(one_handle_less(handles, id)),
        count(one_handle_less(handles, id), id) == left_of(count(handles, id), 1),
        other != id ==> count(one_handle_less(handles, id), other) == count(handles, other),
{
    assert(handles.contains_key(id) ==> handles[id] > 0);
    assert(handles.contains_key(other) ==> handles[other] > 0);
}

/// The captures of a cache among the first `n`.
pub open spec fn captures_of(captures: Seq<TileCapture>, n: int, id: u64) -> int
    decreases n,
{
    if n <= 0 {
        0
    } else {
        captures_of(captures, n - 1, id) + if captures[n - 1].miss.cache.identity.id == id {
            1int
        } else {
            0
        }
    }
}

/// Giving captures up gives up one handle of its cache for each of them.
pub proof fn each_capture_gives_up_its_handle(
    handles: Map<u64, u64>,
    captures: Seq<TileCapture>,
    n: int,
    id: u64,
)
    requires
        all_held(handles),
        0 <= n <= captures.len(),
    ensures
        all_held(captures_released(handles, captures, n)),
        count(captures_released(handles, captures, n), id) == left_of(
            count(handles, id),
            captures_of(captures, n, id),
        ),
        captures_of(captures, n, id) >= 0,
    decreases n,
{
    if n > 0 {
        let before = captures_released(handles, captures, n - 1);
        each_capture_gives_up_its_handle(handles, captures, n - 1, id);
        handles_are_counted_for_their_cache(
            before,
            captures[n - 1].miss.cache.identity.id,
            id,
        );
    }
}

/// The handles of a cache that the first `n` updates of a scene hold, with those of the
/// scenes within.
pub open spec fn held_by_updates(scene: Scene, n: int, id: u64) -> int
    decreases scene, n,
{
    if n <= 0 || n > scene.raster_tile_updates@.len() {
        0
    } else {
        held_by_updates(scene, n - 1, id) + (if scene.raster_tile_updates[n
            - 1].cache.identity.id == id {
            1int
        } else {
            0
        }) + held_by(scene.raster_tile_updates[n - 1].scene, id)
    }
}

/// The handles of a cache that the first `n` batches of a scene hold, with those of the
/// scenes within.
pub open spec fn held_by_batches(scene: Scene, n: int, id: u64) -> int
    decreases scene, n,
{
    if n <= 0 || n > scene.raster_tile_update_batches@.len() {
        0
    } else {
        held_by_batches(scene, n - 1, id) + (if scene.raster_tile_update_batches[n
            - 1].cache.identity.id == id {
            1int
        } else {
            0
        }) + held_by(scene.raster_tile_update_batches[n - 1].scene, id)
    }
}

/// The handles of a cache that the scenes of the first `n` surfaces of a scene hold.
pub open spec fn held_by_surfaces(scene: Scene, n: int, id: u64) -> int
    decreases scene, n,
{
    if n <= 0 || n > scene.raster_compositor_surfaces@.len() {
        0
    } else {
        held_by_surfaces(scene, n - 1, id) + held_by(
            scene.raster_compositor_surfaces[n - 1].scene,
            id,
        )
    }
}

/// The handles of a cache that a scene holds: one for each update and each batch of the
/// cache, there and in all scenes within.
pub open spec fn held_by(scene: Scene, id: u64) -> int
    decreases
        scene,
        scene.raster_tile_updates@.len() + scene.raster_tile_update_batches@.len()
            + scene.raster_compositor_surfaces@.len() + 1,
{
    held_by_updates(scene, scene.raster_tile_updates@.len() as int, id) + held_by_batches(
        scene,
        scene.raster_tile_update_batches@.len() as int,
        id,
    ) + held_by_surfaces(scene, scene.raster_compositor_surfaces@.len() as int, id)
}

proof fn updates_give_up_theirs(handles: Map<u64, u64>, scene: Scene, n: int, id: u64)
    requires
        all_held(handles),
    ensures
        all_held(updates_released(handles, scene, n)),
        held_by_updates(scene, n, id) >= 0,
        count(updates_released(handles, scene, n), id) == left_of(
            count(handles, id),
            held_by_updates(scene, n, id),
        ),
    decreases scene, n,
{
    if 0 < n <= scene.raster_tile_updates@.len() {
        let update = scene.raster_tile_updates[n - 1];
        updates_give_up_theirs(handles, scene, n - 1, id);
        let before = updates_released(handles, scene, n - 1);
        handles_are_counted_for_their_cache(before, update.cache.identity.id, id);
        a_scene_gives_up_all_it_holds(
            one_handle_less(before, update.cache.identity.id),
            scene.raster_tile_updates[n - 1].scene,
            id,
        );
    }
}

proof fn batches_give_up_theirs(handles: Map<u64, u64>, scene: Scene, n: int, id: u64)
    requires
        all_held(handles),
    ensures
        all_held(batches_released(handles, scene, n)),
        held_by_batches(scene, n, id) >= 0,
        count(batches_released(handles, scene, n), id) == left_of(
            count(handles, id),
            held_by_batches(scene, n, id),
        ),
    decreases scene, n,
{
    if 0 < n <= scene.raster_tile_update_batches@.len() {
        let batch = scene.raster_tile_update_batches[n - 1];
        batches_give_up_theirs(handles, scene, n - 1, id);
        let before = batches_released(handles, scene, n - 1);
        handles_are_counted_for_their_cache(before, batch.cache.identity.id, id);
        a_scene_gives_up_all_it_holds(
            one_handle_less(before, batch.cache.identity.id),
            scene.raster_tile_update_batches[n - 1].scene,
            id,
        );
    }
}

proof fn surfaces_give_up_theirs(handles: Map<u64, u64>, scene: Scene, n: int, id: u64)
    requires
        all_held(handles),
    ensures
        all_held(surfaces_released(handles, scene, n)),
        held_by_surfaces(scene, n, id) >= 0,
        count(surfaces_released(handles, scene, n), id) == left_of(
            count(handles, id),
            held_by_surfaces(scene, n, id),
        ),
    decreases scene, n,
{
    if 0 < n <= scene.raster_compositor_surfaces@.len() {
        surfaces_give_up_theirs(handles, scene, n - 1, id);
        a_scene_gives_up_all_it_holds(
            surfaces_released(handles, scene, n - 1),
            scene.raster_compositor_surfaces[n - 1].scene,
            id,
        );
    }
}

/// Giving a scene up gives up every handle that it holds, in itself and in the scenes
/// within it, and no other.
pub proof fn a_scene_gives_up_all_it_holds(handles: Map<u64, u64>, scene: Scene, id: u64)
    requires
        all_held(handles),
    ensures
        all_held(scene_released(handles, scene)),
        held_by(scene, id) >= 0,
        count(scene_released(handles, scene), id) == left_of(
            count(handles, id),
            held_by(scene, id),
        ),
    decreases
        scene,
        scene.raster_tile_updates@.len() + scene.raster_tile_update_batches@.len()
            + scene.raster_compositor_surfaces@.len() + 1,
{
    let updates = scene.raster_tile_updates@.len() as int;
    let batches = scene.raster_tile_update_batches@.len() as int;
    updates_give_up_theirs(handles, scene, updates, id);
    let first = updates_released(handles, scene, updates);
    batches_give_up_theirs(first, scene, batches, id);
    let second = batches_released(first, scene, batches);
    surfaces_give_up_theirs(second, scene, scene.raster_compositor_surfaces@.len() as int, id);
}

/// Whether the last three vertices of a path are a triangle of some points and places, and
/// those before are the ones of another path.
pub open spec fn one_more_triangle(
    before: Seq<PathVertex>,
    after: Seq<PathVertex>,
    a: Point,
    b: Point,
    c: Point,
    curved: bool,
) -> bool {
    let n = before.len() as int;
    &&& after.len() == n + 3
    &&& after.take(n) == before
    &&& after[n].xy_position == a
    &&& after[n + 1].xy_position == b
    &&& after[n + 2].xy_position == c
    &&& curved ==> {
        &&& lies_at(after[n], 0, 0)
        &&& lies_at(after[n + 1], 0x3f00_0000, 0)
        &&& lies_at(after[n + 2], 0x3f80_0000, 0x3f80_0000)
    }
    &&& !curved ==> {
        &&& lies_at(after[n], 0, 0x3f80_0000)
        &&& lies_at(after[n + 1], 0, 0x3f80_0000)
        &&& lies_at(after[n + 2], 0, 0x3f80_0000)
    }
}

/// Whether a vertex lies at a place of a curve.
pub open spec fn lies_at(vertex: PathVertex, s: u32, t: u32) -> bool {
    vertex.st_position.x.bits == s && vertex.st_position.y.bits == t
}

/// A line leads from the current point to another, which then is the current one, and is one
/// more segment. The first segment of a path fills nothing; every later one fills the
/// triangle between the start of the contour, the current point and the other.
pub proof fn a_line_fills_a_triangle(path: PathModel, to: Point)
    requires
        path.contour_count >= 0,
    ensures
        ({
            let after = path.with_line(to);
            &&& after.current == to
            &&& after.start == path.start
            &&& after.contour_count == path.contour_count + 1
            &&& after.content_mask == path.content_mask
            &&& after.style == path.style
            &&& path.contour_count == 0 ==> after.vertices == path.vertices && after.bounds
                == path.bounds
            &&& path.contour_count > 0 ==> one_more_triangle(
                path.vertices,
                after.vertices,
                path.start,
                path.current,
                to,
                false,
            )
        }),
{
    if path.contour_count > 0 {
        let after = path.with_line(to).vertices;
        assert(after.take(path.vertices.len() as int) =~= path.vertices);
    }
}

/// A curve does what a line to its end does, and fills the triangle between the current
/// point, its control point and its end up to the curve.
pub proof fn a_curve_fills_up_to_itself(path: PathModel, to: Point, ctrl: Point)
    requires
        path.contour_count >= 0,
    ensures
        ({
            let line = path.with_line(to);
            let after = path.with_curve(to, ctrl);
            &&& after.current == to
            &&& after.start == path.start
            &&& after.contour_count == path.contour_count + 1
            &&& after.content_mask == path.content_mask
            &&& after.style == path.style
            &&& one_more_triangle(
                line.vertices,
                after.vertices,
                path.current,
                ctrl,
                to,
                true,
            )
        }),
{
    let line = path.with_line(to).vertices;
    let after = path.with_curve(to, ctrl).vertices;
    assert(after.take(line.len() as int) =~= line);
}

/// The bounds of a path of finite points reach no further than they have to: they lie inside
/// every rectangle around what they were and around the points of the triangle.
pub proof fn bounds_reach_no_further_than_triangles(
    path: PathModel,
    xy: Triangle,
    places: Triangle,
    other: Bounds,
)
    requires
        path.bounds.finite(),
        other.finite(),
        Bounds::spec_at(xy.a).finite(),
        Bounds::spec_at(xy.b).finite(),
        Bounds::spec_at(xy.c).finite(),
        other.encloses(path.bounds),
        other.encloses(Bounds::spec_at(xy.a)),
        other.encloses(Bounds::spec_at(xy.b)),
        other.encloses(Bounds::spec_at(xy.c)),
    ensures
        other.encloses(path.with_triangle(xy, places).bounds),
{
    let first = path.bounds.spec_union(Bounds::spec_at(xy.a));
    let second = first.spec_union(Bounds::spec_at(xy.b));
    a_union_is_the_smallest_around_both(path.bounds, Bounds::spec_at(xy.a), other);
    a_union_is_the_smallest_around_both(first, Bounds::spec_at(xy.b), other);
    a_union_is_the_smallest_around_both(second, Bounds::spec_at(xy.c), other);
}

/// Built-in devices come before removable ones, and among those that are alike in this,
/// devices of low power come first.
pub proof fn built_in_devices_come_first(a: DeviceTraits, b: DeviceTraits)
    ensures
        !a.removable && b.removable ==> device_rank(a) < device_rank(b),
        a.removable == b.removable && a.low_power && !b.low_power ==> device_rank(a)
            < device_rank(b),
        a == b ==> device_rank(a) == device_rank(b),
{
}

/// A corner of the unit square has a one where it is to the right or below, and a zero where
/// it is not; what is below stands in the upper half.
pub proof fn corners_of_the_unit_square(right: bool, below: bool)
    ensures
        corner(right, below) % 0x1_0000_0000 == (if right {
            0x3f80_0000int
        } else {
            0
        }),
        corner(right, below) / 0x1_0000_0000 == (if below {
            0x3f80_0000int
        } else {
            0
        }),
{
}

} // verus!
