//! What the size of the instance buffer owes to the parts of a scene.
use vstd::prelude::*;

use crate::batches::{at_start, batches_from, lanes_of, lists_are_indexed, PrimitiveBatch};
use crate::instance_buffer::{
    batch_reserved, batches_reserved, compositor_most, deferred_most, deferred_required,
    each_reserved, frame_required, immediate_reserved, required, reserved, scene_reserved,
    scene_reserved_grows, updates_reserved, vertices_reserved, InstanceSizes,
};
use crate::primitive::{PrimitiveKind, PrimitiveLists, ScenePath};
use crate::scene::{RasterCompositorSurface, RasterTileUpdate, RasterTileUpdateBatch, Scene};

verus! {

proof fn later_runs_end_later(low: int, high: int, bytes: int)
    requires
        low <= high,
    ensures
        reserved(low, bytes) <= reserved(high, bytes),
{
}

proof fn later_instances_end_later(low: int, high: int, size: int, count: int)
    requires
        low <= high,
    ensures
        each_reserved(low, size, count) <= each_reserved(high, size, count),
    decreases count,
{
    if count > 0 {
        later_instances_end_later(low, high, size, count - 1);
    }
}

proof fn later_vertices_end_later(
    paths: Seq<ScenePath>,
    sizes: InstanceSizes,
    low: int,
    high: int,
    start: int,
    end: int,
)
    requires
        low <= high,
    ensures
        vertices_reserved(paths, sizes, low, start, end) <= vertices_reserved(
            paths,
            sizes,
            high,
            start,
            end,
        ),
    decreases end - start,
{
    if end > start {
        later_vertices_end_later(paths, sizes, low, high, start, end - 1);
        later_runs_end_later(
            vertices_reserved(paths, sizes, low, start, end - 1),
            vertices_reserved(paths, sizes, high, start, end - 1),
            paths[end - 1].vertex_count * sizes.path_vertex,
        );
    }
}

proof fn later_batch_ends_later(
    lists: PrimitiveLists,
    sizes: InstanceSizes,
    low: int,
    high: int,
    batch: PrimitiveBatch,
)
    requires
        low <= high,
    ensures
        batch_reserved(lists, sizes, low, batch) <= batch_reserved(lists, sizes, high, batch),
{
    let count = batch.end - batch.start;
    match batch.kind {
        PrimitiveKind::Surface => later_instances_end_later(
            low,
            high,
            sizes.surface as int,
            count,
        ),
        PrimitiveKind::RasterTile => later_instances_end_later(
            low,
            high,
            sizes.raster_tile as int,
            count,
        ),
        PrimitiveKind::Path => later_vertices_end_later(
            lists.paths,
            sizes,
            low,
            high,
            batch.start as int,
            batch.end as int,
        ),
        _ => {},
    }
}

proof fn later_batches_end_later(
    lists: PrimitiveLists,
    sizes: InstanceSizes,
    low: int,
    high: int,
    batches: Seq<PrimitiveBatch>,
)
    requires
        low <= high,
    ensures
        batches_reserved(lists, sizes, low, batches) <= batches_reserved(
            lists,
            sizes,
            high,
            batches,
        ),
    decreases batches.len(),
{
    if batches.len() > 0 {
        let rest = batches.drop_last();
        later_batches_end_later(lists, sizes, low, high, rest);
        later_batch_ends_later(
            lists,
            sizes,
            batches_reserved(lists, sizes, low, rest),
            batches_reserved(lists, sizes, high, rest),
            batches.last(),
        );
    }
}

proof fn later_scene_ends_later(lists: PrimitiveLists, sizes: InstanceSizes, low: int, high: int)
    requires
        low <= high,
    ensures
        scene_reserved(lists, sizes, low) <= scene_reserved(lists, sizes, high),
{
    later_batches_end_later(lists, sizes, low, high, batches_from(lanes_of(lists), at_start()));
}

proof fn later_immediate_ends_later(
    batches: Seq<RasterTileUpdateBatch>,
    sizes: InstanceSizes,
    low: int,
    high: int,
)
    requires
        low <= high,
    ensures
        immediate_reserved(batches, sizes, low) <= immediate_reserved(batches, sizes, high),
    decreases batches.len(),
{
    if batches.len() > 0 {
        let rest = batches.drop_last();
        later_immediate_ends_later(rest, sizes, low, high);
        later_scene_ends_later(
            batches.last().scene@.lists,
            sizes,
            immediate_reserved(rest, sizes, low),
            immediate_reserved(rest, sizes, high),
        );
    }
}

proof fn updates_take_room(updates: Seq<RasterTileUpdate>, sizes: InstanceSizes)
    ensures
        updates_reserved(updates, sizes, 0) >= 0,
    decreases updates.len(),
{
    if updates.len() > 0 {
        updates_take_room(updates.drop_last(), sizes);
        lists_are_indexed(&updates.last().scene);
        scene_reserved_grows(
            updates.last().scene@.lists,
            sizes,
            updates_reserved(updates.drop_last(), sizes, 0),
        );
    }
}

proof fn immediate_takes_room(
    batches: Seq<RasterTileUpdateBatch>,
    sizes: InstanceSizes,
    offset: int,
)
    requires
        offset >= 0,
    ensures
        immediate_reserved(batches, sizes, offset) >= offset,
    decreases batches.len(),
{
    if batches.len() > 0 {
        immediate_takes_room(batches.drop_last(), sizes, offset);
        lists_are_indexed(&batches.last().scene);
        scene_reserved_grows(
            batches.last().scene@.lists,
            sizes,
            immediate_reserved(batches.drop_last(), sizes, offset),
        );
    }
}

/// Whether two scenes draw the same besides updates, batches and surfaces.
pub open spec fn same_primitives(before: Scene, after: Scene) -> bool {
    before@.lists == after@.lists
}

/// The larger of two numbers of bytes.
pub open spec fn larger(a: int, b: int) -> int {
    if a >= b {
        a
    } else {
        b
    }
}

proof fn surface_within_most(scene: Scene, sizes: InstanceSizes, i: int, n: int)
    requires
        0 <= i < n <= scene.raster_compositor_surfaces@.len(),
    ensures
        compositor_most(scene, sizes, n) >= required(
            scene.raster_compositor_surfaces@[i].scene,
            sizes,
        ),
    decreases n,
{
    if i < n - 1 {
        surface_within_most(scene, sizes, i, n - 1);
    }
}

proof fn deferred_within_most(
    batches: Seq<RasterTileUpdateBatch>,
    sizes: InstanceSizes,
    i: int,
)
    requires
        0 <= i < batches.len(),
        batches[i].deferred,
    ensures
        deferred_most(batches, sizes) >= deferred_required(batches[i], sizes),
    decreases batches.len(),
{
    if i < batches.len() - 1 {
        assert(batches.drop_last()[i] == batches[i]);
        deferred_within_most(batches.drop_last(), sizes, i);
    }
}

/// A buffer of the required size holds the frame itself, the scene of every surface
/// of the compositor, and every deferred batch.
pub proof fn a_buffer_holds_every_part(scene: Scene, sizes: InstanceSizes)
    ensures
        required(scene, sizes) >= frame_required(scene, sizes),
        forall|i: int|
            0 <= i < scene.raster_compositor_surfaces@.len() ==> required(scene, sizes)
                >= #[trigger] required(scene.raster_compositor_surfaces@[i].scene, sizes),
        forall|i: int|
            0 <= i < scene.raster_tile_update_batches@.len()
                && scene.raster_tile_update_batches@[i].deferred ==> required(scene, sizes)
                >= #[trigger] deferred_required(scene.raster_tile_update_batches@[i], sizes),
{
    assert forall|i: int| 0 <= i < scene.raster_compositor_surfaces@.len() implies required(
        scene,
        sizes,
    ) >= #[trigger] required(scene.raster_compositor_surfaces@[i].scene, sizes) by {
        surface_within_most(scene, sizes, i, scene.raster_compositor_surfaces@.len() as int);
    }
    assert forall|i: int|
        0 <= i < scene.raster_tile_update_batches@.len()
            && scene.raster_tile_update_batches@[i].deferred implies required(scene, sizes)
        >= #[trigger] deferred_required(scene.raster_tile_update_batches@[i], sizes) by {
        deferred_within_most(scene.raster_tile_update_batches@, sizes, i);
    }
}

proof fn same_surfaces_need_the_same(before: Scene, after: Scene, sizes: InstanceSizes, n: int)
    requires
        n <= before.raster_compositor_surfaces@.len(),
        n <= after.raster_compositor_surfaces@.len(),
        forall|i: int|
            0 <= i < n ==> before.raster_compositor_surfaces@[i]
                == #[trigger] after.raster_compositor_surfaces@[i],
    ensures
        compositor_most(before, sizes, n) == compositor_most(after, sizes, n),
    decreases n,
{
    if n > 0 {
        same_surfaces_need_the_same(before, after, sizes, n - 1);
        assert(before.raster_compositor_surfaces@[n - 1]
            == after.raster_compositor_surfaces@[n - 1]);
    }
}

/// Surfaces of the compositor have the buffer one after the other: with one more the
/// required size is the larger of the two needs, so that one that needs no more than
/// the rest changes nothing.
pub proof fn surfaces_share_the_buffer(
    before: Scene,
    after: Scene,
    surface: RasterCompositorSurface,
    sizes: InstanceSizes,
)
    requires
        same_primitives(before, after),
        after.raster_tile_updates@ == before.raster_tile_updates@,
        after.raster_tile_update_batches@ == before.raster_tile_update_batches@,
        after.raster_compositor_surfaces@ == before.raster_compositor_surfaces@.push(surface),
    ensures
        required(after, sizes) == larger(required(before, sizes), required(surface.scene, sizes)),
{
    same_surfaces_need_the_same(
        before,
        after,
        sizes,
        before.raster_compositor_surfaces@.len() as int,
    );
    assert(after.raster_compositor_surfaces@[before.raster_compositor_surfaces@.len() as int]
        == surface);
}

/// Deferred batches have buffers of their own: with one more the required size is the
/// larger of the two needs, so that one that needs no more than the rest changes
/// nothing.
pub proof fn deferred_batches_have_their_own_buffers(
    before: Scene,
    after: Scene,
    batch: RasterTileUpdateBatch,
    sizes: InstanceSizes,
)
    requires
        same_primitives(before, after),
        batch.deferred,
        after.raster_tile_updates@ == before.raster_tile_updates@,
        after.raster_tile_update_batches@ == before.raster_tile_update_batches@.push(batch),
        after.raster_compositor_surfaces@ == before.raster_compositor_surfaces@,
    ensures
        required(after, sizes) == larger(
            required(before, sizes),
            deferred_required(batch, sizes),
        ),
{
    let batches = before.raster_tile_update_batches@;
    assert(batches.push(batch).drop_last() =~= batches);
    same_surfaces_need_the_same(
        before,
        after,
        sizes,
        before.raster_compositor_surfaces@.len() as int,
    );
}

/// Another tile update never lowers the required size.
pub proof fn an_update_never_lowers_the_size(
    before: Scene,
    after: Scene,
    update: RasterTileUpdate,
    sizes: InstanceSizes,
)
    requires
        same_primitives(before, after),
        after.raster_tile_updates@ == before.raster_tile_updates@.push(update),
        after.raster_tile_update_batches@ == before.raster_tile_update_batches@,
        after.raster_compositor_surfaces@ == before.raster_compositor_surfaces@,
    ensures
        required(after, sizes) >= required(before, sizes),
{
    let updates = before.raster_tile_updates@;
    let batches = before.raster_tile_update_batches@;
    assert(updates.push(update).drop_last() =~= updates);
    updates_take_room(updates, sizes);
    lists_are_indexed(&update.scene);
    let low = updates_reserved(updates, sizes, 0);
    let high = updates_reserved(updates.push(update), sizes, 0);
    scene_reserved_grows(update.scene@.lists, sizes, low);
    later_immediate_ends_later(batches, sizes, low, high);
    later_scene_ends_later(
        before@.lists,
        sizes,
        immediate_reserved(batches, sizes, low),
        immediate_reserved(batches, sizes, high),
    );
    same_surfaces_need_the_same(
        before,
        after,
        sizes,
        before.raster_compositor_surfaces@.len() as int,
    );
}

/// Another batch that is drawn with the frame never lowers the required size.
pub proof fn an_immediate_batch_never_lowers_the_size(
    before: Scene,
    after: Scene,
    batch: RasterTileUpdateBatch,
    sizes: InstanceSizes,
)
    requires
        same_primitives(before, after),
        !batch.deferred,
        after.raster_tile_updates@ == before.raster_tile_updates@,
        after.raster_tile_update_batches@ == before.raster_tile_update_batches@.push(batch),
        after.raster_compositor_surfaces@ == before.raster_compositor_surfaces@,
    ensures
        required(after, sizes) >= required(before, sizes),
{
    let updates = before.raster_tile_updates@;
    let batches = before.raster_tile_update_batches@;
    assert(batches.push(batch).drop_last() =~= batches);
    updates_take_room(updates, sizes);
    let from = updates_reserved(updates, sizes, 0);
    immediate_takes_room(batches, sizes, from);
    lists_are_indexed(&batch.scene);
    let low = immediate_reserved(batches, sizes, from);
    let high = immediate_reserved(batches.push(batch), sizes, from);
    scene_reserved_grows(batch.scene@.lists, sizes, low);
    later_scene_ends_later(before@.lists, sizes, low, high);
    same_surfaces_need_the_same(
        before,
        after,
        sizes,
        before.raster_compositor_surfaces@.len() as int,
    );
}

proof fn nothing_is_deferred(batches: Seq<RasterTileUpdateBatch>, sizes: InstanceSizes)
    requires
        forall|i: int| 0 <= i < batches.len() ==> !(#[trigger] batches[i]).deferred,
    ensures
        deferred_most(batches, sizes) == 0,
    decreases batches.len(),
{
    if batches.len() > 0 {
        let rest = batches.drop_last();
        assert(!batches[batches.len() - 1].deferred);
        assert forall|i: int| 0 <= i < rest.len() implies !(#[trigger] rest[i]).deferred by {
            assert(!batches[i].deferred);
        }
        nothing_is_deferred(rest, sizes);
    }
}

/// A scene without deferred batches and without surfaces of the compositor needs what its
/// frame needs, and no more.
pub proof fn a_plain_scene_needs_its_frame(scene: Scene, sizes: InstanceSizes)
    requires
        scene.raster_compositor_surfaces@.len() == 0,
        forall|i: int|
            0 <= i < scene.raster_tile_update_batches@.len() ==> !(
            #[trigger] scene.raster_tile_update_batches@[i]).deferred,
    ensures
        required(scene, sizes) == frame_required(scene, sizes),
{
    let batches = scene.raster_tile_update_batches@;
    nothing_is_deferred(batches, sizes);
    updates_take_room(scene.raster_tile_updates@, sizes);
    let from = updates_reserved(scene.raster_tile_updates@, sizes, 0);
    immediate_takes_room(batches, sizes, from);
    lists_are_indexed(&scene);
    scene_reserved_grows(scene@.lists, sizes, immediate_reserved(batches, sizes, from));
}

} // verus!
