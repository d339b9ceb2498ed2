//! What holds of a scene from painting to drawing: everything painted is drawn,
//! once, and what was painted over something else is drawn after it.
use vstd::prelude::*;

use crate::batches::{
    at_start, batches_cover_every_primitive, batches_from, below_last_order, covered, drawn,
    drawing_follows_the_order, lane, lanes_of, never_falls, sorted_lanes,
};
use crate::bounds_tree::{orders_are_counted, overlap_bounds_the_highest};
use crate::geometry::Bounds;
use crate::primitive::{PaintOperation, PathId, Primitive, PrimitiveKind};
use crate::scene::{Scene, SceneModel};
use crate::stable_sort::{item_kept_by_sort, stably_sorted, Keyed};

verus! {

/// The lists of a finished scene are sorted by order.
pub proof fn a_finished_scene_is_sorted(painted: SceneModel, finished: SceneModel)
    requires
        painted.finished_as(finished),
    ensures
        sorted_lanes(lanes_of(finished.lists)),
{
    let lanes = lanes_of(finished.lists);
    assert forall|rank: int, i: int, j: int|
        0 <= rank < 8 && 0 <= i < j < lanes[rank].len() implies (
    #[trigger] lanes[rank][i]).order <= (#[trigger] lanes[rank][j]).order by {
        assert(lanes[rank] == lane(finished.lists, rank));
        if rank == 0 {
            assert(finished.lists.shadows[i].key() <= finished.lists.shadows[j].key());
        } else if rank == 1 {
            assert(finished.lists.quads[i].key() <= finished.lists.quads[j].key());
        } else if rank == 2 {
            assert(finished.lists.paths[i].key() <= finished.lists.paths[j].key());
        } else if rank == 3 {
            assert(finished.lists.underlines[i].key() <= finished.lists.underlines[j].key());
        } else if rank == 4 {
            assert(finished.lists.monochrome_sprites[i].key() <= finished.lists.monochrome_sprites[j].key());
        } else if rank == 5 {
            assert(finished.lists.polychrome_sprites[i].key() <= finished.lists.polychrome_sprites[j].key());
        } else if rank == 6 {
            assert(finished.lists.surfaces[i].key() <= finished.lists.surfaces[j].key());
        } else if rank == 7 {
            assert(finished.lists.raster_tiles[i].key() <= finished.lists.raster_tiles[j].key());
        }
    }
}

/// Every order in use is at most the number of rectangles that have one.
pub open spec fn orders_in_use(model: SceneModel) -> bool {
    &&& forall|i: int| 0 <= i < model.layers.len() ==> #[trigger] model.layers[i]
        <= model.bounds.len()
    &&& forall|i: int|
        0 <= i < model.lists.shadows.len() ==> (#[trigger] model.lists.shadows[i]).order
            <= model.bounds.len()
    &&& forall|i: int|
        0 <= i < model.lists.quads.len() ==> (#[trigger] model.lists.quads[i]).order
            <= model.bounds.len()
    &&& forall|i: int|
        0 <= i < model.lists.paths.len() ==> (#[trigger] model.lists.paths[i]).order
            <= model.bounds.len()
    &&& forall|i: int|
        0 <= i < model.lists.underlines.len() ==> (#[trigger] model.lists.underlines[i]).order
            <= model.bounds.len()
    &&& forall|i: int|
        0 <= i < model.lists.monochrome_sprites.len() ==> (#[trigger] model.lists.monochrome_sprites[i]).order
            <= model.bounds.len()
    &&& forall|i: int|
        0 <= i < model.lists.polychrome_sprites.len() ==> (#[trigger] model.lists.polychrome_sprites[i]).order
            <= model.bounds.len()
    &&& forall|i: int|
        0 <= i < model.lists.surfaces.len() ==> (#[trigger] model.lists.surfaces[i]).order
            <= model.bounds.len()
    &&& forall|i: int|
        0 <= i < model.lists.raster_tiles.len() ==> (#[trigger] model.lists.raster_tiles[i]).order
            <= model.bounds.len()
}

/// Painting keeps every order in use at most the number of rectangles that have one.
pub proof fn painting_counts_orders(model: SceneModel, operation: PaintOperation)
    requires
        model.wf(),
        model.painted(operation).fits(),
        orders_in_use(model),
    ensures
        orders_in_use(model.painted(operation)),
{
    let after = model.painted(operation);
    match operation {
        PaintOperation::Primitive(primitive) => {
            let bounds = primitive.clipped();
            orders_are_counted(model.bounds, bounds);
            if !bounds.empty() {
                let order = model.order_of(bounds);
                if model.layers.len() > 0 {
                    assert(model.layers[model.layers.len() - 1] <= model.bounds.len());
                }
                assert(order <= after.bounds.len());
                let placed = primitive.placed(order, PathId(model.lists.paths.len() as usize));
                assert(after.lists == model.lists.with(placed));
                adding_counts_orders(model, after, placed);
            }
        },
        PaintOperation::StartLayer(bounds) => {
            orders_are_counted(model.bounds, bounds);
            assert forall|i: int| 0 <= i < after.layers.len() implies #[trigger] after.layers[i]
                <= after.bounds.len() by {
                if i < model.layers.len() {
                    assert(model.layers[i] <= model.bounds.len());
                }
            }
            keeping_counts_orders(model, after);
        },
        PaintOperation::EndLayer => {
            keeping_counts_orders(model, after);
        },
    }
}

proof fn keeping_counts_orders(model: SceneModel, after: SceneModel)
    requires
        orders_in_use(model),
        after.lists == model.lists,
        after.bounds.len() >= model.bounds.len(),
    ensures
        forall|i: int|
            0 <= i < after.lists.shadows.len() ==> (#[trigger] after.lists.shadows[i]).order
                <= after.bounds.len(),
        forall|i: int|
            0 <= i < after.lists.quads.len() ==> (#[trigger] after.lists.quads[i]).order
                <= after.bounds.len(),
        forall|i: int|
            0 <= i < after.lists.paths.len() ==> (#[trigger] after.lists.paths[i]).order
                <= after.bounds.len(),
        forall|i: int|
            0 <= i < after.lists.underlines.len() ==> (#[trigger] after.lists.underlines[i]).order
                <= after.bounds.len(),
        forall|i: int|
            0 <= i < after.lists.monochrome_sprites.len() ==> (#[trigger] after.lists.monochrome_sprites[i]).order
                <= after.bounds.len(),
        forall|i: int|
            0 <= i < after.lists.polychrome_sprites.len() ==> (#[trigger] after.lists.polychrome_sprites[i]).order
                <= after.bounds.len(),
        forall|i: int|
            0 <= i < after.lists.surfaces.len() ==> (#[trigger] after.lists.surfaces[i]).order
                <= after.bounds.len(),
        forall|i: int|
            0 <= i < after.lists.raster_tiles.len() ==> (#[trigger] after.lists.raster_tiles[i]).order
                <= after.bounds.len(),
{
}

proof fn adding_counts_orders(model: SceneModel, after: SceneModel, placed: Primitive)
    requires
        orders_in_use(model),
        placed.order() <= after.bounds.len(),
        after.lists == model.lists.with(placed),
        after.layers == model.layers,
        after.bounds.len() >= model.bounds.len(),
    ensures
        orders_in_use(after),
{
    assert forall|i: int| 0 <= i < after.lists.shadows.len() implies (
    #[trigger] after.lists.shadows[i]).order <= after.bounds.len() by {
        if i < model.lists.shadows.len() {
            assert(after.lists.shadows[i] == model.lists.shadows[i]);
        }
    }
    assert forall|i: int| 0 <= i < after.lists.quads.len() implies (
    #[trigger] after.lists.quads[i]).order <= after.bounds.len() by {
        if i < model.lists.quads.len() {
            assert(after.lists.quads[i] == model.lists.quads[i]);
        }
    }
    assert forall|i: int| 0 <= i < after.lists.paths.len() implies (
    #[trigger] after.lists.paths[i]).order <= after.bounds.len() by {
        if i < model.lists.paths.len() {
            assert(after.lists.paths[i] == model.lists.paths[i]);
        }
    }
    assert forall|i: int| 0 <= i < after.lists.underlines.len() implies (
    #[trigger] after.lists.underlines[i]).order <= after.bounds.len() by {
        if i < model.lists.underlines.len() {
            assert(after.lists.underlines[i] == model.lists.underlines[i]);
        }
    }
    assert forall|i: int| 0 <= i < after.lists.monochrome_sprites.len() implies (
    #[trigger] after.lists.monochrome_sprites[i]).order <= after.bounds.len() by {
        if i < model.lists.monochrome_sprites.len() {
            assert(after.lists.monochrome_sprites[i] == model.lists.monochrome_sprites[i]);
        }
    }
    assert forall|i: int| 0 <= i < after.lists.polychrome_sprites.len() implies (
    #[trigger] after.lists.polychrome_sprites[i]).order <= after.bounds.len() by {
        if i < model.lists.polychrome_sprites.len() {
            assert(after.lists.polychrome_sprites[i] == model.lists.polychrome_sprites[i]);
        }
    }
    assert forall|i: int| 0 <= i < after.lists.surfaces.len() implies (
    #[trigger] after.lists.surfaces[i]).order <= after.bounds.len() by {
        if i < model.lists.surfaces.len() {
            assert(after.lists.surfaces[i] == model.lists.surfaces[i]);
        }
    }
    assert forall|i: int| 0 <= i < after.lists.raster_tiles.len() implies (
    #[trigger] after.lists.raster_tiles[i]).order <= after.bounds.len() by {
        if i < model.lists.raster_tiles.len() {
            assert(after.lists.raster_tiles[i] == model.lists.raster_tiles[i]);
        }
    }
}

proof fn sorting_keeps_orders<T: Keyed>(painted: Seq<T>, finished: Seq<T>, i: int)
    requires
        stably_sorted(painted, finished),
        0 <= i < finished.len(),
    ensures
        painted.contains(finished[i]),
{
    assert(finished.contains(finished[i]));
    item_kept_by_sort(painted, finished, finished[i]);
}

/// No primitive of a scene that was painted has the last order.
pub proof fn nothing_painted_has_the_last_order(painted: SceneModel, finished: SceneModel)
    requires
        orders_in_use(painted),
        painted.bounds.len() < u32::MAX,
        painted.finished_as(finished),
    ensures
        below_last_order(lanes_of(finished.lists)),
{
    let lanes = lanes_of(finished.lists);
    assert forall|rank: int, i: int| 0 <= rank < 8 && 0 <= i < lanes[rank].len() implies (
    #[trigger] lanes[rank][i]).order < u32::MAX by {
        assert(lanes[rank] == lane(finished.lists, rank));
        if rank == 0 {
            sorting_keeps_orders(painted.lists.shadows, finished.lists.shadows, i);
            let x = choose|x: int|
                0 <= x < painted.lists.shadows.len() && painted.lists.shadows[x]
                    == finished.lists.shadows[i];
            assert(painted.lists.shadows[x].order <= painted.bounds.len());
        } else if rank == 1 {
            sorting_keeps_orders(painted.lists.quads, finished.lists.quads, i);
            let x = choose|x: int|
                0 <= x < painted.lists.quads.len() && painted.lists.quads[x]
                    == finished.lists.quads[i];
            assert(painted.lists.quads[x].order <= painted.bounds.len());
        } else if rank == 2 {
            sorting_keeps_orders(painted.lists.paths, finished.lists.paths, i);
            let x = choose|x: int|
                0 <= x < painted.lists.paths.len() && painted.lists.paths[x]
                    == finished.lists.paths[i];
            assert(painted.lists.paths[x].order <= painted.bounds.len());
        } else if rank == 3 {
            sorting_keeps_orders(painted.lists.underlines, finished.lists.underlines, i);
            let x = choose|x: int|
                0 <= x < painted.lists.underlines.len() && painted.lists.underlines[x]
                    == finished.lists.underlines[i];
            assert(painted.lists.underlines[x].order <= painted.bounds.len());
        } else if rank == 4 {
            sorting_keeps_orders(painted.lists.monochrome_sprites, finished.lists.monochrome_sprites, i);
            let x = choose|x: int|
                0 <= x < painted.lists.monochrome_sprites.len() && painted.lists.monochrome_sprites[x]
                    == finished.lists.monochrome_sprites[i];
            assert(painted.lists.monochrome_sprites[x].order <= painted.bounds.len());
        } else if rank == 5 {
            sorting_keeps_orders(painted.lists.polychrome_sprites, finished.lists.polychrome_sprites, i);
            let x = choose|x: int|
                0 <= x < painted.lists.polychrome_sprites.len() && painted.lists.polychrome_sprites[x]
                    == finished.lists.polychrome_sprites[i];
            assert(painted.lists.polychrome_sprites[x].order <= painted.bounds.len());
        } else if rank == 6 {
            sorting_keeps_orders(painted.lists.surfaces, finished.lists.surfaces, i);
            let x = choose|x: int|
                0 <= x < painted.lists.surfaces.len() && painted.lists.surfaces[x]
                    == finished.lists.surfaces[i];
            assert(painted.lists.surfaces[x].order <= painted.bounds.len());
        } else if rank == 7 {
            sorting_keeps_orders(painted.lists.raster_tiles, finished.lists.raster_tiles, i);
            let x = choose|x: int|
                0 <= x < painted.lists.raster_tiles.len() && painted.lists.raster_tiles[x]
                    == finished.lists.raster_tiles[i];
            assert(painted.lists.raster_tiles[x].order <= painted.bounds.len());
        }
    }
}

/// Everything painted is drawn exactly once, and in order: the batches of a finished
/// scene cover each list from its start to its end, and along them neither the order
/// falls nor, within one order, the sort.
pub proof fn everything_painted_is_drawn_once(
    painted: SceneModel,
    finished: Scene,
    kind: PrimitiveKind,
)
    requires
        orders_in_use(painted),
        painted.bounds.len() < u32::MAX,
        painted.finished_as(finished@),
    ensures
        ({
            let lanes = lanes_of(finished@.lists);
            let batches = batches_from(lanes, at_start());
            &&& covered(batches, kind) == Seq::new(lanes[kind.rank()].len(), |i: int| i)
            &&& never_falls(drawn(lanes, batches))
        }),
{
    let lanes = lanes_of(finished@.lists);
    crate::batches::lists_are_indexed(&finished);
    nothing_painted_has_the_last_order(painted, finished@);
    a_finished_scene_is_sorted(painted, finished@);
    batches_cover_every_primitive(lanes, at_start(), kind);
    drawing_follows_the_order(lanes, at_start());
    assert(covered(batches_from(lanes, at_start()), kind) =~= Seq::new(
        lanes[kind.rank()].len(),
        |i: int| i,
    ));
}

/// What is painted over something else, outside of layers, gets an order above it:
/// it is drawn later.
pub proof fn what_is_painted_over_is_drawn_before(model: SceneModel, bounds: Bounds, i: int)
    requires
        model.wf(),
        model.has_room(1),
        model.layers.len() == 0,
        0 <= i < model.bounds.len(),
        model.bounds[i].bounds.overlaps(bounds),
    ensures
        model.bounds[i].order < model.order_of(bounds),
{
    orders_are_counted(model.bounds, bounds);
    overlap_bounds_the_highest(model.bounds, bounds, i);
}

} // verus!
