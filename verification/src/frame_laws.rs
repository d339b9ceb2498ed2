//! What holds of the plan of a frame as a whole: it fits into buffers of the
//! required size, it keeps the tiles that are in view, and it keeps the accounts of
//! the caches exact.
use vstd::prelude::*;

use crate::batches::{
    at_start, batches_from, batches_lie_within, indexed, lanes_of, left, left_in, lists_are_indexed,
    next_batch, LaneItem, PrimitiveBatch,
};
use crate::encode::{keeps_up, reserved_room_suffices, EncodeState};
use crate::frame_plan::{
    allocations_left, batch_keys, batch_size, batch_target_keys, comparison_lists, comparison_paint,
    placed_targets, protected_keys, soft_limits, trimmed_to_soft_limits, update_key, update_keys,
    BatchMeasures, PlanContext, PlanState, SoftLimit,
};
use crate::geometry::DeviceSize;
use crate::instance_buffer::{
    batches_reserved, deferred_most, deferred_required, each_reserved, each_reserved_grows, frame_required,
    immediate_reserved, scene_reserved, scene_reserved_grows, updates_reserved, InstanceSizes,
};
use crate::primitive::{PaintOperation, PrimitiveKind, PrimitiveLists};
use crate::raster_cache::RasterCacheIdentity;
use crate::residency::{
    account_number, allocatable, index_of, index_of_finds, target_key, texture_bytes, CachedRasterTexture,
    CachedRasterTextureKey, PlacedTarget, PreparedRasterBatchTexture, ResidencyModel,
};
use crate::residency_laws::{
    batch_preparing_keeps_accounts_exact, batch_preparing_keeps_the_hard_limit, exact,
    preparing_keeps_accounts_exact, preparing_keeps_the_hard_limit, revisions_stay_apart,
    targets_distinct, trimming_keeps_accounts_exact, trimming_keeps_the_hard_limit,
    trimming_spares_protected_tiles, within_hard_limit,
};
use crate::scene::{sorted_of, RasterTileUpdate, RasterTileUpdateBatch, Scene, SceneModel};
use crate::stable_sort::{a_stable_order_exists, stably_sorted, Keyed};

verus! {

proof fn sorting_keeps_length<T: Keyed>(items: Seq<T>)
    ensures
        sorted_of(items).len() == items.len(),
{
    let sorted = a_stable_order_exists(items);
    assert(stably_sorted(items, sorted));
}

/// Whether there are no primitives but so many raster tiles at most.
spec fn only_tiles(lists: PrimitiveLists, n: int) -> bool {
    &&& lists.shadows.len() == 0
    &&& lists.quads.len() == 0
    &&& lists.paths.len() == 0
    &&& lists.underlines.len() == 0
    &&& lists.monochrome_sprites.len() == 0
    &&& lists.polychrome_sprites.len() == 0
    &&& lists.surfaces.len() == 0
    &&& lists.raster_tiles.len() <= n
}

proof fn comparison_paints_tiles(batch: RasterTileUpdateBatch, n: int)
    requires
        0 <= n <= batch.targets@.len(),
    ensures
        only_tiles(SceneModel::empty().replayed(comparison_paint(batch).take(n)).lists, n),
    decreases n,
{
    let paint = comparison_paint(batch);
    if n == 0 {
        assert(paint.take(0) =~= Seq::<PaintOperation>::empty());
    } else {
        comparison_paints_tiles(batch, n - 1);
        assert(paint.take(n).drop_last() =~= paint.take(n - 1));
        assert(paint.take(n).last() == paint[n - 1]);
    }
}

proof fn comparison_draws_tiles(batch: RasterTileUpdateBatch)
    ensures
        only_tiles(comparison_lists(batch), batch.targets@.len() as int),
        indexed(lanes_of(comparison_lists(batch)), at_start()),
{
    let paint = comparison_paint(batch);
    let n = batch.targets@.len() as int;
    comparison_paints_tiles(batch, n);
    assert(paint.take(n) =~= paint);
    let lists = SceneModel::empty().replayed(paint).lists;
    sorting_keeps_length(lists.shadows);
    sorting_keeps_length(lists.quads);
    sorting_keeps_length(lists.paths);
    sorting_keeps_length(lists.underlines);
    sorting_keeps_length(lists.monochrome_sprites);
    sorting_keeps_length(lists.polychrome_sprites);
    sorting_keeps_length(lists.surfaces);
    sorting_keeps_length(lists.raster_tiles);
    assert(batch.targets.len() == batch.targets@.len());
    let lanes = lanes_of(comparison_lists(batch));
    assert forall|rank: int| 0 <= rank < 8 implies (#[trigger] lanes[rank]).len()
        <= usize::MAX by {
        assert(lanes[rank] == crate::batches::lane(comparison_lists(batch), rank));
    }
}

/// The items that batches hold.
spec fn items_in(batches: Seq<PrimitiveBatch>) -> int
    decreases batches.len(),
{
    if batches.len() == 0 {
        0
    } else {
        items_in(batches.drop_last()) + (batches.last().end - batches.last().start)
    }
}

proof fn items_from_front(batches: Seq<PrimitiveBatch>)
    requires
        batches.len() > 0,
    ensures
        items_in(batches) == (batches.first().end - batches.first().start) + items_in(
            batches.drop_first(),
        ),
    decreases batches.len(),
{
    if batches.len() > 1 {
        items_from_front(batches.drop_last());
        assert(batches.drop_first().drop_last() =~= batches.drop_last().drop_first());
    } else {
        assert(batches.drop_first() =~= Seq::<PrimitiveBatch>::empty());
        assert(batches.drop_last() =~= Seq::<PrimitiveBatch>::empty());
    }
}

/// The batches of lists with nothing but raster tiles hold raster tiles only, and
/// no more than there are.
proof fn tile_batches(lanes: Seq<Seq<LaneItem>>, starts: Seq<usize>)
    requires
        indexed(lanes, starts),
        forall|rank: int| 0 <= rank < 7 ==> (#[trigger] lanes[rank]).len() == 0,
    ensures
        items_in(batches_from(lanes, starts)) <= left_in(lanes, starts, 7),
        forall|i: int|
            0 <= i < batches_from(lanes, starts).len() ==> (
            #[trigger] batches_from(lanes, starts)[i]).kind == PrimitiveKind::RasterTile,
    decreases left(lanes, starts),
{
    if next_batch(lanes, starts) is Some {
        let batch = next_batch(lanes, starts)->0;
        crate::batches::batch_advances(lanes, starts);
        let after = starts.update(batch.kind.rank(), batch.end);
        assert(lanes[batch.kind.rank()].len() > 0);
        tile_batches(lanes, after);
        let rest = batches_from(lanes, after);
        let all = batches_from(lanes, starts);
        assert(all == seq![batch] + rest);
        items_from_front(all);
        assert(all.drop_first() =~= rest);
        assert(all.first() == batch);
        assert forall|i: int| 0 <= i < all.len() implies (#[trigger] all[i]).kind
            == PrimitiveKind::RasterTile by {
            if i > 0 {
                assert(all[i] == rest[i - 1]);
            }
        }
    }
}

proof fn each_reserved_adds(offset: int, size: int, a: int, b: int)
    requires
        a >= 0,
        b >= 0,
    ensures
        each_reserved(each_reserved(offset, size, a), size, b) == each_reserved(
            offset,
            size,
            a + b,
        ),
    decreases b,
{
    if b > 0 {
        each_reserved_adds(offset, size, a, b - 1);
    }
}

proof fn tiles_reserved(
    lists: PrimitiveLists,
    sizes: InstanceSizes,
    offset: int,
    batches: Seq<PrimitiveBatch>,
)
    requires
        forall|i: int|
            0 <= i < batches.len() ==> (#[trigger] batches[i]).kind == PrimitiveKind::RasterTile
                && batches[i].start < batches[i].end,
    ensures
        items_in(batches) >= 0,
        batches_reserved(lists, sizes, offset, batches) == each_reserved(
            offset,
            sizes.raster_tile as int,
            items_in(batches),
        ),
    decreases batches.len(),
{
    if batches.len() > 0 {
        let rest = batches.drop_last();
        assert forall|i: int| 0 <= i < rest.len() implies (#[trigger] rest[i]).kind
            == PrimitiveKind::RasterTile && rest[i].start < rest[i].end by {
            assert(batches[i] == rest[i]);
        }
        tiles_reserved(lists, sizes, offset, rest);
        assert(batches[batches.len() - 1].kind == PrimitiveKind::RasterTile);
        each_reserved_adds(
            offset,
            sizes.raster_tile as int,
            items_in(rest),
            batches.last().end - batches.last().start,
        );
    }
}

/// What is drawn to compare a batch takes no more room than is reserved for it.
proof fn comparison_fits(batch: RasterTileUpdateBatch, sizes: InstanceSizes, offset: int)
    requires
        offset >= 0,
    ensures
        scene_reserved(comparison_lists(batch), sizes, offset) <= each_reserved(
            offset,
            sizes.raster_tile as int,
            batch.targets@.len() as int,
        ),
{
    let lists = comparison_lists(batch);
    let lanes = lanes_of(lists);
    comparison_draws_tiles(batch);
    assert forall|rank: int| 0 <= rank < 7 implies (#[trigger] lanes[rank]).len() == 0 by {
        assert(lanes[rank] == crate::batches::lane(lists, rank));
    }
    assert(lanes[7] == crate::batches::lane(lists, 7));
    tile_batches(lanes, at_start());
    batches_lie_within(lanes, at_start());
    let batches = batches_from(lanes, at_start());
    assert forall|i: int| 0 <= i < batches.len() implies (#[trigger] batches[i]).kind
        == PrimitiveKind::RasterTile && batches[i].start < batches[i].end by {}
    tiles_reserved(lists, sizes, offset, batches);
    let size = sizes.raster_tile as int;
    let held = items_in(batches);
    let reserved = each_reserved(offset, size, held);
    each_reserved_grows(offset, size, held);
    each_reserved_adds(offset, size, held, batch.targets@.len() - held);
    each_reserved_grows(reserved, size, batch.targets@.len() - held);
}

proof fn updates_reserved_rises(updates: Seq<RasterTileUpdate>, sizes: InstanceSizes, n: int)
    requires
        0 <= n <= updates.len(),
    ensures
        0 <= updates_reserved(updates.take(n), sizes, 0) <= updates_reserved(updates, sizes, 0),
    decreases updates.len() - n,
{
    updates_reserved_counts(updates, sizes, n);
    if n < updates.len() {
        updates_reserved_rises(updates, sizes, n + 1);
        let part = updates.take(n + 1);
        assert(part.drop_last() =~= updates.take(n));
        lists_are_indexed(&part.last().scene);
        scene_reserved_grows(
            part.last().scene@.lists,
            sizes,
            updates_reserved(updates.take(n), sizes, 0),
        );
    } else {
        assert(updates.take(n) =~= updates);
    }
}

proof fn updates_reserved_counts(updates: Seq<RasterTileUpdate>, sizes: InstanceSizes, n: int)
    requires
        0 <= n <= updates.len(),
    ensures
        0 <= updates_reserved(updates.take(n), sizes, 0),
    decreases n,
{
    if n > 0 {
        updates_reserved_counts(updates, sizes, n - 1);
        let part = updates.take(n);
        assert(part.drop_last() =~= updates.take(n - 1));
        lists_are_indexed(&part.last().scene);
        scene_reserved_grows(
            part.last().scene@.lists,
            sizes,
            updates_reserved(updates.take(n - 1), sizes, 0),
        );
    }
}

proof fn immediate_reserved_step(
    batches: Seq<RasterTileUpdateBatch>,
    sizes: InstanceSizes,
    from: int,
    n: int,
)
    requires
        0 <= n < batches.len(),
        immediate_reserved(batches.take(n), sizes, from) >= 0,
    ensures
        immediate_reserved(batches.take(n + 1), sizes, from) == if batches[n].deferred {
            immediate_reserved(batches.take(n), sizes, from)
        } else {
            scene_reserved(
                batches[n].scene@.lists,
                sizes,
                immediate_reserved(batches.take(n), sizes, from),
            )
        },
        immediate_reserved(batches.take(n + 1), sizes, from) >= immediate_reserved(
            batches.take(n),
            sizes,
            from,
        ),
{
    let part = batches.take(n + 1);
    assert(part.drop_last() =~= batches.take(n));
    assert(part.last() == batches[n]);
    lists_are_indexed(&batches[n].scene);
    scene_reserved_grows(
        batches[n].scene@.lists,
        sizes,
        immediate_reserved(batches.take(n), sizes, from),
    );
}

proof fn immediate_reserved_counts(
    batches: Seq<RasterTileUpdateBatch>,
    sizes: InstanceSizes,
    from: int,
    n: int,
)
    requires
        0 <= n <= batches.len(),
        from >= 0,
    ensures
        from <= immediate_reserved(batches.take(n), sizes, from),
    decreases n,
{
    if n > 0 {
        immediate_reserved_counts(batches, sizes, from, n - 1);
        immediate_reserved_step(batches, sizes, from, n - 1);
    } else {
        assert(batches.take(0) =~= Seq::<RasterTileUpdateBatch>::empty());
    }
}

proof fn immediate_reserved_rises(
    batches: Seq<RasterTileUpdateBatch>,
    sizes: InstanceSizes,
    from: int,
    n: int,
)
    requires
        0 <= n <= batches.len(),
        from >= 0,
    ensures
        from <= immediate_reserved(batches.take(n), sizes, from) <= immediate_reserved(
            batches,
            sizes,
            from,
        ),
    decreases batches.len() - n,
{
    immediate_reserved_counts(batches, sizes, from, n);
    if n < batches.len() {
        immediate_reserved_step(batches, sizes, from, n);
        immediate_reserved_rises(batches, sizes, from, n + 1);
    } else {
        assert(batches.take(n) =~= batches);
    }
}

proof fn deferred_is_covered(batches: Seq<RasterTileUpdateBatch>, sizes: InstanceSizes, i: int)
    requires
        0 <= i < batches.len(),
        batches[i].deferred,
    ensures
        deferred_required(batches[i], sizes) <= deferred_most(batches, sizes),
    decreases batches.len(),
{
    if i < batches.len() - 1 {
        assert(batches.drop_last()[i] == batches[i]);
        deferred_is_covered(batches.drop_last(), sizes, i);
    }
}

/// What a frame needs is there: the buffers hold what is required, and there is a
/// texture to rasterize paths in if the scene has any.
pub open spec fn provided(context: PlanContext, scene: Scene, root_path_texture: bool) -> bool {
    &&& context.sizes.positive()
    &&& frame_required(scene, context.sizes) <= context.capacity
    &&& deferred_most(scene.raster_tile_update_batches@, context.sizes)
        <= context.deferred_capacity
    &&& scene@.lists.paths.len() > 0 ==> root_path_texture
}

proof fn updates_fit(state: PlanState, context: PlanContext, scene: Scene, n: int)
    requires
        state.frame.failed is None,
        state.frame.offset == 0,
        context.sizes.positive(),
        0 <= n <= scene.raster_tile_updates@.len(),
        updates_reserved(scene.raster_tile_updates@, context.sizes, 0) <= context.capacity,
    ensures
        keeps_up(
            state.all_updated(context, scene.raster_tile_updates@, n).frame,
            updates_reserved(scene.raster_tile_updates@.take(n), context.sizes, 0),
        ),
    decreases n,
{
    let updates = scene.raster_tile_updates@;
    if n > 0 {
        updates_fit(state, context, scene, n - 1);
        let before = state.all_updated(context, updates, n - 1);
        let update = updates[n - 1];
        let from = updates_reserved(updates.take(n - 1), context.sizes, 0);
        updates_reserved_rises(updates, context.sizes, n - 1);
        updates_reserved_rises(updates, context.sizes, n);
        assert(updates.take(n).drop_last() =~= updates.take(n - 1));
        assert(updates.take(n).last() == update);
        lists_are_indexed(&update.scene);
        scene_reserved_grows(update.scene@.lists, context.sizes, from);
        let (residency, texture) = before.residency.prepared(
            update.cache.identity,
            update_key(update),
            update.texture_size,
            update.gutter,
            context.protected,
        );
        if texture is Some {
            let begun = before.frame.begun(
                crate::encode::PassTarget::Tile {
                    update: (n - 1) as usize,
                    allocation: texture->0.allocation,
                    fresh: texture->0.fresh,
                },
            );
            reserved_room_suffices(
                begun,
                context.capacity,
                update.scene@.lists,
                context.sizes,
                residency.textures,
                true,
                from,
            );
        }
    } else {
        assert(updates.take(0) =~= Seq::<RasterTileUpdate>::empty());
    }
}

proof fn batch_fits(
    state: PlanState,
    context: PlanContext,
    index: int,
    batch: RasterTileUpdateBatch,
    measures: BatchMeasures,
    from: int,
)
    requires
        from >= 0,
        keeps_up(state.frame, from),
        context.sizes.positive(),
        !batch.deferred ==> scene_reserved(batch.scene@.lists, context.sizes, from)
            <= context.capacity,
        batch.deferred ==> deferred_required(batch, context.sizes) <= context.deferred_capacity,
    ensures
        keeps_up(
            state.batch_updated(context, index, batch, measures).frame,
            if batch.deferred {
                from
            } else {
                scene_reserved(batch.scene@.lists, context.sizes, from)
            },
        ),
{
    let size = batch_size(batch, measures);
    lists_are_indexed(&batch.scene);
    scene_reserved_grows(batch.scene@.lists, context.sizes, from);
    scene_reserved_grows(batch.scene@.lists, context.sizes, 0);
    if batch.targets@.len() > 0 && size.width > 0 && size.height > 0 {
        let (residency, prepared) = state.residency.batch_prepared(
            batch.cache.identity,
            batch.texture_size,
            batch.gutter,
            placed_targets(batch.targets@, measures.places@),
            size,
            context.protected,
        );
        if let Some(PreparedRasterBatchTexture::Allocated(allocation)) = prepared {
            let target = crate::encode::PassTarget::Batch {
                batch: index as usize,
                allocation,
                size,
                deferred: batch.deferred,
            };
            if !batch.deferred {
                reserved_room_suffices(
                    state.frame.begun(target),
                    context.capacity,
                    batch.scene@.lists,
                    context.sizes,
                    residency.textures,
                    true,
                    from,
                );
            } else {
                let drawn_to = scene_reserved(batch.scene@.lists, context.sizes, 0);
                each_reserved_grows(
                    drawn_to,
                    context.sizes.raster_tile as int,
                    batch.targets@.len() as int,
                );
                let begun = EncodeState { offset: 0, ..state.frame }.begun(target);
                reserved_room_suffices(
                    begun,
                    context.deferred_capacity,
                    batch.scene@.lists,
                    context.sizes,
                    residency.textures,
                    true,
                    0,
                );
                if batch.verify {
                    let drawn = begun.scene_placed(
                        context.deferred_capacity,
                        batch.scene@.lists,
                        context.sizes,
                        residency.textures,
                        true,
                    );
                    comparison_draws_tiles(batch);
                    comparison_fits(batch, context.sizes, drawn_to);
                    reserved_room_suffices(
                        drawn.begun(
                            crate::encode::PassTarget::Comparison {
                                batch: index as usize,
                                account: account_number(
                                    residency.namespaces,
                                    batch.cache.identity.id,
                                ),
                            },
                        ),
                        context.deferred_capacity,
                        comparison_lists(batch),
                        context.sizes,
                        residency.textures,
                        true,
                        drawn_to,
                    );
                }
            }
        }
    }
}

proof fn batches_fit(
    state: PlanState,
    context: PlanContext,
    scene: Scene,
    measures: Seq<BatchMeasures>,
    from: int,
    n: int,
)
    requires
        from >= 0,
        keeps_up(state.frame, from),
        context.sizes.positive(),
        0 <= n <= scene.raster_tile_update_batches@.len(),
        immediate_reserved(scene.raster_tile_update_batches@, context.sizes, from)
            <= context.capacity,
        deferred_most(scene.raster_tile_update_batches@, context.sizes)
            <= context.deferred_capacity,
    ensures
        keeps_up(
            state.all_batches_updated(
                context,
                scene.raster_tile_update_batches@,
                measures,
                n,
            ).frame,
            immediate_reserved(scene.raster_tile_update_batches@.take(n), context.sizes, from),
        ),
    decreases n,
{
    let batches = scene.raster_tile_update_batches@;
    if n > 0 {
        batches_fit(state, context, scene, measures, from, n - 1);
        let before = state.all_batches_updated(context, batches, measures, n - 1);
        let reached = immediate_reserved(batches.take(n - 1), context.sizes, from);
        immediate_reserved_rises(batches, context.sizes, from, n - 1);
        immediate_reserved_rises(batches, context.sizes, from, n);
        immediate_reserved_step(batches, context.sizes, from, n - 1);
        if batches[n - 1].deferred {
            deferred_is_covered(batches, context.sizes, n - 1);
        }
        batch_fits(before, context, n - 1, batches[n - 1], measures[n - 1], reached);
    } else {
        assert(batches.take(0) =~= Seq::<RasterTileUpdateBatch>::empty());
    }
}

/// A frame whose buffers have the required size is encoded as a whole, whatever
/// tiles are on the device and however many of its updates are skipped.
pub proof fn a_frame_fits_the_required_buffer(
    state: PlanState,
    context: PlanContext,
    scene: Scene,
    measures: Seq<BatchMeasures>,
    root_path_texture: bool,
)
    requires
        state.frame.failed is None,
        state.frame.offset == 0,
        provided(context, scene, root_path_texture),
    ensures
        state.planned(context, scene, measures, root_path_texture).frame.failed is None,
{
    let updates = scene.raster_tile_updates@;
    let batches = scene.raster_tile_update_batches@;
    let from = updates_reserved(updates, context.sizes, 0);
    updates_reserved_rises(updates, context.sizes, 0);
    assert(updates.take(updates.len() as int) =~= updates);
    immediate_reserved_rises(batches, context.sizes, from, batches.len() as int);
    assert(batches.take(batches.len() as int) =~= batches);
    let reached = immediate_reserved(batches, context.sizes, from);
    lists_are_indexed(&scene);
    scene_reserved_grows(scene@.lists, context.sizes, reached);
    updates_fit(state, context, scene, updates.len() as int);
    let updated = state.all_updated(context, updates, updates.len() as int);
    batches_fit(updated, context, scene, measures, from, batches.len() as int);
    let batched = updated.all_batches_updated(context, batches, measures, batches.len() as int);
    let limits = soft_limits(scene);
    let residency = trimmed_to_soft_limits(
        batched.residency,
        limits,
        context.protected,
        limits.len() as int,
    );
    reserved_room_suffices(
        batched.frame.begun(crate::encode::PassTarget::Drawable),
        context.capacity,
        scene@.lists,
        context.sizes,
        residency.textures,
        root_path_texture,
        reached,
    );
}

/// Whether a frame rasterizes the tile.
pub open spec fn rasterized(scene: Scene, key: CachedRasterTextureKey) -> bool {
    update_keys(scene.raster_tile_updates@).contains(key) || batch_target_keys(
        scene.raster_tile_update_batches@,
    ).contains(key)
}

proof fn updates_spare(
    state: PlanState,
    context: PlanContext,
    updates: Seq<RasterTileUpdate>,
    n: int,
    texture: CachedRasterTexture,
)
    requires
        0 <= n <= updates.len(),
        state.residency.textures.contains(texture),
        context.protected.contains(texture.key),
        !update_keys(updates).contains(texture.key),
    ensures
        state.all_updated(context, updates, n).residency.textures.contains(texture),
    decreases n,
{
    if n > 0 {
        updates_spare(state, context, updates, n - 1, texture);
        let before = state.all_updated(context, updates, n - 1);
        let update = updates[n - 1];
        assert(update_keys(updates)[n - 1] == update_key(update));
        revisions_stay_apart(
            before.residency,
            update.cache.identity,
            update_key(update),
            update.texture_size,
            update.gutter,
            context.protected,
            texture,
        );
    }
}

proof fn scanning_spares(
    model: ResidencyModel,
    cache: RasterCacheIdentity,
    tile_size: DeviceSize,
    gutter: i32,
    targets: Seq<PlacedTarget>,
    texture_size: DeviceSize,
    texture: CachedRasterTexture,
)
    requires
        model.textures.contains(texture),
        forall|i: int|
            0 <= i < targets.len() ==> target_key(cache.id, #[trigger] targets[i]) != texture.key,
    ensures
        model.scanned(cache, tile_size, gutter, targets, texture_size).model.textures.contains(
            texture,
        ),
    decreases targets.len(),
{
    if targets.len() > 0 {
        let rest = targets.drop_last();
        let target = targets.last();
        assert forall|i: int| 0 <= i < rest.len() implies target_key(
            cache.id,
            #[trigger] rest[i],
        ) != texture.key by {
            assert(target_key(cache.id, targets[i]) != texture.key);
        }
        assert(target_key(cache.id, targets[targets.len() - 1]) != texture.key);
        scanning_spares(model, cache, tile_size, gutter, rest, texture_size, texture);
        let scan = model.scanned(cache, tile_size, gutter, rest, texture_size);
        let after = model.scanned(cache, tile_size, gutter, targets, texture_size);
        let key = target_key(cache.id, target);
        index_of_finds(scan.model.textures, key);
        let at = index_of(scan.model.textures, key);
        let k = choose|k: int|
            0 <= k < scan.model.textures.len() && scan.model.textures[k] == texture;
        if scan.misplaced || crate::residency::misplaced(target, tile_size, texture_size) {
        } else if scan.model.has_ready(key, tile_size, gutter) {
            assert(after.model.textures[k] == texture);
        } else if at < 0 || k < at {
            assert(after.model.textures[k] == texture);
        } else {
            assert(after.model.textures[k - 1] == texture);
        }
    }
}

proof fn putting_spares(
    room: ResidencyModel,
    cache_id: u64,
    tile_size: DeviceSize,
    gutter: i32,
    bytes: usize,
    targets: Seq<PlacedTarget>,
    texture: CachedRasterTexture,
)
    requires
        room.textures.contains(texture),
        forall|i: int|
            0 <= i < targets.len() ==> target_key(cache_id, #[trigger] targets[i]) != texture.key,
    ensures
        crate::residency::all_put(room, cache_id, tile_size, gutter, bytes, targets).contains(
            texture,
        ),
    decreases targets.len(),
{
    if targets.len() > 0 {
        let rest = targets.drop_last();
        assert forall|i: int| 0 <= i < rest.len() implies target_key(
            cache_id,
            #[trigger] rest[i],
        ) != texture.key by {
            assert(target_key(cache_id, targets[i]) != texture.key);
        }
        assert(target_key(cache_id, targets[targets.len() - 1]) != texture.key);
        putting_spares(room, cache_id, tile_size, gutter, bytes, rest, texture);
        let before = crate::residency::all_put(room, cache_id, tile_size, gutter, bytes, rest);
        let after = crate::residency::all_put(room, cache_id, tile_size, gutter, bytes, targets);
        let key = target_key(cache_id, targets.last());
        index_of_finds(before, key);
        let k = choose|k: int| 0 <= k < before.len() && before[k] == texture;
        assert(after[k] == texture);
    }
}

proof fn entries_come_from_targets(
    model: ResidencyModel,
    cache: RasterCacheIdentity,
    tile_size: DeviceSize,
    gutter: i32,
    targets: Seq<PlacedTarget>,
    texture_size: DeviceSize,
)
    ensures
        ({
            let entries = model.scanned(cache, tile_size, gutter, targets, texture_size).entries;
            forall|k: int| 0 <= k < entries.len() ==> targets.contains(#[trigger] entries[k])
        }),
    decreases targets.len(),
{
    if targets.len() > 0 {
        let rest = targets.drop_last();
        entries_come_from_targets(model, cache, tile_size, gutter, rest, texture_size);
        let before = model.scanned(cache, tile_size, gutter, rest, texture_size).entries;
        let entries = model.scanned(cache, tile_size, gutter, targets, texture_size).entries;
        assert forall|k: int| 0 <= k < entries.len() implies targets.contains(
            #[trigger] entries[k],
        ) by {
            if k < before.len() {
                assert(rest.contains(before[k]));
                let x = choose|x: int| 0 <= x < rest.len() && rest[x] == before[k];
                assert(targets[x] == entries[k]);
            } else {
                assert(targets[targets.len() - 1] == entries[k]);
            }
        }
    }
}

proof fn batch_spares(
    model: ResidencyModel,
    cache: RasterCacheIdentity,
    tile_size: DeviceSize,
    gutter: i32,
    targets: Seq<PlacedTarget>,
    texture_size: DeviceSize,
    protected: Seq<CachedRasterTextureKey>,
    texture: CachedRasterTexture,
)
    requires
        model.textures.contains(texture),
        protected.contains(texture.key),
        forall|i: int|
            0 <= i < targets.len() ==> target_key(cache.id, #[trigger] targets[i]) != texture.key,
    ensures
        model.batch_prepared(
            cache,
            tile_size,
            gutter,
            targets,
            texture_size,
            protected,
        ).0.textures.contains(texture),
{
    let hard = cache.config.hard();
    let bytes = texture_bytes(texture_size);
    if allocatable(texture_size, hard) {
        scanning_spares(model, cache, tile_size, gutter, targets, texture_size, texture);
        let scan = model.scanned(cache, tile_size, gutter, targets, texture_size);
        trimming_spares_protected_tiles(
            scan.model,
            cache.id,
            bytes,
            hard,
            protected,
            texture,
        );
        let room = scan.model.trimmed(cache.id, bytes, hard, protected);
        entries_come_from_targets(model, cache, tile_size, gutter, targets, texture_size);
        assert forall|i: int| 0 <= i < scan.entries.len() implies target_key(
            cache.id,
            #[trigger] scan.entries[i],
        ) != texture.key by {
            assert(targets.contains(scan.entries[i]));
            let x = choose|x: int| 0 <= x < targets.len() && targets[x] == scan.entries[i];
            assert(target_key(cache.id, targets[x]) != texture.key);
        }
        putting_spares(
            room,
            cache.id,
            tile_size,
            gutter,
            bytes as usize,
            scan.entries,
            texture,
        );
    }
}

proof fn batch_keys_are_targets(batches: Seq<RasterTileUpdateBatch>, i: int, j: int)
    requires
        0 <= i < batches.len(),
        0 <= j < batches[i].targets@.len(),
    ensures
        batch_target_keys(batches).contains(batch_keys(batches[i])[j]),
    decreases batches.len(),
{
    let rest = batch_target_keys(batches.drop_last());
    let last = batch_keys(batches.last());
    let all = batch_target_keys(batches);
    if i < batches.len() - 1 {
        assert(batches.drop_last()[i] == batches[i]);
        batch_keys_are_targets(batches.drop_last(), i, j);
        let x = choose|x: int| 0 <= x < rest.len() && rest[x] == batch_keys(batches[i])[j];
        assert(all[x] == rest[x]);
    } else {
        assert(all[rest.len() + j] == last[j]);
    }
}

proof fn batches_spare(
    state: PlanState,
    context: PlanContext,
    batches: Seq<RasterTileUpdateBatch>,
    measures: Seq<BatchMeasures>,
    n: int,
    texture: CachedRasterTexture,
)
    requires
        0 <= n <= batches.len(),
        state.residency.textures.contains(texture),
        context.protected.contains(texture.key),
        !batch_target_keys(batches).contains(texture.key),
    ensures
        state.all_batches_updated(context, batches, measures, n).residency.textures.contains(
            texture,
        ),
    decreases n,
{
    if n > 0 {
        batches_spare(state, context, batches, measures, n - 1, texture);
        let before = state.all_batches_updated(context, batches, measures, n - 1);
        let batch = batches[n - 1];
        let targets = placed_targets(batch.targets@, measures[n - 1].places@);
        assert forall|i: int| 0 <= i < targets.len() implies target_key(
            batch.cache.identity.id,
            #[trigger] targets[i],
        ) != texture.key by {
            batch_keys_are_targets(batches, n - 1, i);
            assert(batch_keys(batch)[i] == target_key(batch.cache.identity.id, targets[i]));
        }
        batch_spares(
            before.residency,
            batch.cache.identity,
            batch.texture_size,
            batch.gutter,
            targets,
            batch_size(batch, measures[n - 1]),
            context.protected,
            texture,
        );
    }
}

proof fn soft_limits_spare(
    model: ResidencyModel,
    limits: Seq<SoftLimit>,
    protected: Seq<CachedRasterTextureKey>,
    n: int,
    texture: CachedRasterTexture,
)
    requires
        0 <= n <= limits.len(),
        model.textures.contains(texture),
        protected.contains(texture.key),
    ensures
        trimmed_to_soft_limits(model, limits, protected, n).textures.contains(texture),
    decreases n,
{
    if n > 0 {
        soft_limits_spare(model, limits, protected, n - 1, texture);
        trimming_spares_protected_tiles(
            trimmed_to_soft_limits(model, limits, protected, n - 1),
            limits[n - 1].cache_id,
            0,
            limits[n - 1].bytes,
            protected,
            texture,
        );
    }
}

/// A tile that is on the device and that the frame draws, but does not rasterize
/// anew, is still there when the frame is drawn, and as it was: no update and no
/// limit takes it away.
pub proof fn tiles_in_view_stay(
    state: PlanState,
    context: PlanContext,
    scene: Scene,
    measures: Seq<BatchMeasures>,
    root_path_texture: bool,
    texture: CachedRasterTexture,
)
    requires
        context.protected == protected_keys(scene),
        protected_keys(scene).contains(texture.key),
        !rasterized(scene, texture.key),
        state.residency.textures.contains(texture),
    ensures
        state.planned(
            context,
            scene,
            measures,
            root_path_texture,
        ).residency.textures.contains(texture),
{
    let updates = scene.raster_tile_updates@;
    let batches = scene.raster_tile_update_batches@;
    updates_spare(state, context, updates, updates.len() as int, texture);
    let updated = state.all_updated(context, updates, updates.len() as int);
    batches_spare(updated, context, batches, measures, batches.len() as int, texture);
    let batched = updated.all_batches_updated(context, batches, measures, batches.len() as int);
    let limits = soft_limits(scene);
    soft_limits_spare(batched.residency, limits, context.protected, limits.len() as int, texture);
}

/// The number of targets of the first `n` batches.
pub open spec fn targets_in(batches: Seq<RasterTileUpdateBatch>, n: int) -> int
    decreases n,
{
    if n <= 0 {
        0
    } else {
        targets_in(batches, n - 1) + batches[n - 1].targets@.len()
    }
}

proof fn updates_keep_exact(
    state: PlanState,
    context: PlanContext,
    updates: Seq<RasterTileUpdate>,
    n: int,
)
    requires
        0 <= n <= updates.len(),
        exact(state.residency),
        state.residency.next_allocation + updates.len() <= u64::MAX,
        state.residency.textures.len() + updates.len() <= usize::MAX,
    ensures
        ({
            let after = state.all_updated(context, updates, n).residency;
            &&& exact(after)
            &&& after.next_allocation <= state.residency.next_allocation + n
            &&& after.textures.len() <= state.residency.textures.len() + n
        }),
    decreases n,
{
    if n > 0 {
        updates_keep_exact(state, context, updates, n - 1);
        let before = state.all_updated(context, updates, n - 1);
        let update = updates[n - 1];
        if before.frame.failed is None {
            preparing_keeps_accounts_exact(
                before.residency,
                update.cache.identity,
                update_key(update),
                update.texture_size,
                update.gutter,
                context.protected,
            );
            crate::residency_laws::preparing_adds_one(
                before.residency,
                update.cache.identity,
                update_key(update),
                update.texture_size,
                update.gutter,
                context.protected,
            );
        }
    }
}

proof fn batches_keep_exact(
    state: PlanState,
    context: PlanContext,
    batches: Seq<RasterTileUpdateBatch>,
    measures: Seq<BatchMeasures>,
    n: int,
)
    requires
        0 <= n <= batches.len(),
        exact(state.residency),
        state.residency.next_allocation + batches.len() <= u64::MAX,
        state.residency.textures.len() + targets_in(batches, batches.len() as int) <= usize::MAX,
        forall|i: int|
            0 <= i < batches.len() ==> targets_distinct(
                placed_targets((#[trigger] batches[i]).targets@, measures[i].places@),
            ),
    ensures
        ({
            let after = state.all_batches_updated(context, batches, measures, n).residency;
            &&& exact(after)
            &&& after.next_allocation <= state.residency.next_allocation + n
            &&& after.textures.len() <= state.residency.textures.len() + targets_in(batches, n)
        }),
    decreases n,
{
    if n > 0 {
        batches_keep_exact(state, context, batches, measures, n - 1);
        targets_in_rises(batches, n);
        let before = state.all_batches_updated(context, batches, measures, n - 1);
        let batch = batches[n - 1];
        let targets = placed_targets(batch.targets@, measures[n - 1].places@);
        batch_preparing_keeps_accounts_exact(
            before.residency,
            batch.cache.identity,
            batch.texture_size,
            batch.gutter,
            targets,
            batch_size(batch, measures[n - 1]),
            context.protected,
        );
        crate::residency_laws::batch_preparing_adds_targets(
            before.residency,
            batch.cache.identity,
            batch.texture_size,
            batch.gutter,
            targets,
            batch_size(batch, measures[n - 1]),
            context.protected,
        );
    }
}

proof fn targets_in_rises(batches: Seq<RasterTileUpdateBatch>, n: int)
    requires
        0 <= n <= batches.len(),
    ensures
        0 <= targets_in(batches, n) <= targets_in(batches, batches.len() as int),
    decreases batches.len() - n,
{
    targets_in_counts(batches, n);
    if n < batches.len() {
        targets_in_rises(batches, n + 1);
    }
}

proof fn targets_in_counts(batches: Seq<RasterTileUpdateBatch>, n: int)
    ensures
        0 <= targets_in(batches, n),
    decreases n,
{
    if n > 0 {
        targets_in_counts(batches, n - 1);
    }
}

proof fn soft_limits_keep_exact(
    model: ResidencyModel,
    limits: Seq<SoftLimit>,
    protected: Seq<CachedRasterTextureKey>,
    n: int,
)
    requires
        0 <= n <= limits.len(),
        exact(model),
    ensures
        exact(trimmed_to_soft_limits(model, limits, protected, n)),
    decreases n,
{
    if n > 0 {
        soft_limits_keep_exact(model, limits, protected, n - 1);
        trimming_keeps_accounts_exact(
            trimmed_to_soft_limits(model, limits, protected, n - 1),
            limits[n - 1].cache_id,
            0,
            limits[n - 1].bytes,
            protected,
        );
    }
}

/// A frame keeps the accounts of the caches exact, as long as no batch names a tile
/// twice.
pub proof fn a_frame_keeps_accounts_exact(
    state: PlanState,
    context: PlanContext,
    scene: Scene,
    measures: Seq<BatchMeasures>,
    root_path_texture: bool,
)
    requires
        exact(state.residency),
        allocations_left(
            state.residency,
            scene.raster_tile_updates@.len() + scene.raster_tile_update_batches@.len(),
        ),
        state.residency.textures.len() + scene.raster_tile_updates@.len() + targets_in(
            scene.raster_tile_update_batches@,
            scene.raster_tile_update_batches@.len() as int,
        ) <= usize::MAX,
        forall|i: int|
            0 <= i < scene.raster_tile_update_batches@.len() ==> targets_distinct(
                placed_targets(
                    (#[trigger] scene.raster_tile_update_batches@[i]).targets@,
                    measures[i].places@,
                ),
            ),
    ensures
        exact(state.planned(context, scene, measures, root_path_texture).residency),
{
    let updates = scene.raster_tile_updates@;
    let batches = scene.raster_tile_update_batches@;
    targets_in_counts(batches, batches.len() as int);
    updates_keep_exact(state, context, updates, updates.len() as int);
    let updated = state.all_updated(context, updates, updates.len() as int);
    batches_keep_exact(updated, context, batches, measures, batches.len() as int);
    let batched = updated.all_batches_updated(context, batches, measures, batches.len() as int);
    let limits = soft_limits(scene);
    soft_limits_keep_exact(batched.residency, limits, context.protected, limits.len() as int);
}

/// Whether a frame names a cache by one identity only.
pub open spec fn names_consistently(scene: Scene, cache: RasterCacheIdentity) -> bool {
    &&& forall|i: int|
        0 <= i < scene.raster_tile_updates@.len() && (
        #[trigger] scene.raster_tile_updates@[i]).cache.identity.id == cache.id
            ==> scene.raster_tile_updates@[i].cache.identity == cache
    &&& forall|i: int|
        0 <= i < scene.raster_tile_update_batches@.len() && (
        #[trigger] scene.raster_tile_update_batches@[i]).cache.identity.id == cache.id
            ==> scene.raster_tile_update_batches@[i].cache.identity == cache
}

proof fn updates_keep_the_hard_limit(
    state: PlanState,
    context: PlanContext,
    scene: Scene,
    cache: RasterCacheIdentity,
    n: int,
)
    requires
        0 <= n <= scene.raster_tile_updates@.len(),
        names_consistently(scene, cache),
        within_hard_limit(state.residency, cache),
    ensures
        within_hard_limit(
            state.all_updated(context, scene.raster_tile_updates@, n).residency,
            cache,
        ),
    decreases n,
{
    let updates = scene.raster_tile_updates@;
    if n > 0 {
        updates_keep_the_hard_limit(state, context, scene, cache, n - 1);
        let before = state.all_updated(context, updates, n - 1);
        let update = updates[n - 1];
        preparing_keeps_the_hard_limit(
            before.residency,
            update.cache.identity,
            update_key(update),
            update.texture_size,
            update.gutter,
            context.protected,
            cache,
        );
    }
}

proof fn batches_keep_the_hard_limit(
    state: PlanState,
    context: PlanContext,
    scene: Scene,
    measures: Seq<BatchMeasures>,
    cache: RasterCacheIdentity,
    n: int,
)
    requires
        0 <= n <= scene.raster_tile_update_batches@.len(),
        names_consistently(scene, cache),
        within_hard_limit(state.residency, cache),
    ensures
        within_hard_limit(
            state.all_batches_updated(
                context,
                scene.raster_tile_update_batches@,
                measures,
                n,
            ).residency,
            cache,
        ),
    decreases n,
{
    let batches = scene.raster_tile_update_batches@;
    if n > 0 {
        batches_keep_the_hard_limit(state, context, scene, measures, cache, n - 1);
        let before = state.all_batches_updated(context, batches, measures, n - 1);
        let batch = batches[n - 1];
        batch_preparing_keeps_the_hard_limit(
            before.residency,
            batch.cache.identity,
            batch.texture_size,
            batch.gutter,
            placed_targets(batch.targets@, measures[n - 1].places@),
            batch_size(batch, measures[n - 1]),
            context.protected,
            cache,
        );
    }
}

proof fn soft_limits_keep_the_hard_limit(
    model: ResidencyModel,
    limits: Seq<SoftLimit>,
    protected: Seq<CachedRasterTextureKey>,
    cache: RasterCacheIdentity,
    n: int,
)
    requires
        0 <= n <= limits.len(),
        within_hard_limit(model, cache),
    ensures
        within_hard_limit(trimmed_to_soft_limits(model, limits, protected, n), cache),
    decreases n,
{
    if n > 0 {
        soft_limits_keep_the_hard_limit(model, limits, protected, cache, n - 1);
        trimming_keeps_the_hard_limit(
            trimmed_to_soft_limits(model, limits, protected, n - 1),
            limits[n - 1].cache_id,
            0,
            limits[n - 1].bytes,
            protected,
            cache,
        );
    }
}

/// A frame takes no cache above its hard limit.
pub proof fn a_frame_keeps_the_hard_limit(
    state: PlanState,
    context: PlanContext,
    scene: Scene,
    measures: Seq<BatchMeasures>,
    root_path_texture: bool,
    cache: RasterCacheIdentity,
)
    requires
        names_consistently(scene, cache),
        within_hard_limit(state.residency, cache),
    ensures
        within_hard_limit(
            state.planned(context, scene, measures, root_path_texture).residency,
            cache,
        ),
{
    let updates = scene.raster_tile_updates@;
    let batches = scene.raster_tile_update_batches@;
    updates_keep_the_hard_limit(state, context, scene, cache, updates.len() as int);
    let updated = state.all_updated(context, updates, updates.len() as int);
    batches_keep_the_hard_limit(
        updated,
        context,
        scene,
        measures,
        cache,
        batches.len() as int,
    );
    let batched = updated.all_batches_updated(context, batches, measures, batches.len() as int);
    let limits = soft_limits(scene);
    soft_limits_keep_the_hard_limit(
        batched.residency,
        limits,
        context.protected,
        cache,
        limits.len() as int,
    );
}

} // verus!
