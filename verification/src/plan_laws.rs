//! What the plan of a frame comes to: which tiles it keeps, how large the texture of a
//! batch is, and what is drawn into which texture, and in which sequence.
use vstd::prelude::*;

use crate::bounds_tree::{next_order, orders_are_counted, properly_ordered, OrderedBounds};
use crate::encode_laws::{listed, no_last_order, order_at};
use crate::frame_plan::{
    batch_drawn_keys, batch_keys, batch_size, batch_target_keys, comparison_lists, comparison_paint,
    comparison_tile, drawn_keys, measurable, placed_targets, protected_keys, reach, update_keys,
    BatchMeasures, TargetPlace,
};
use crate::geometry::{Bounds, DeviceSize};
use crate::primitive::{PaintOperation, Primitive, PrimitiveKind, PrimitiveLists, RasterTile};
use crate::residency::CachedRasterTextureKey;
use crate::scene::{
    sorted_of, RasterTileUpdate, RasterTileUpdateBatch, RasterTileUpdateTarget, Scene, SceneModel,
};
use crate::stable_sort::{a_stable_order_exists, item_kept_by_sort, stably_sorted, Keyed};
use crate::tile_laws::key_of;

verus! {

/// Whether tiles that are drawn have a key among them.
pub open spec fn shows_key(tiles: Seq<RasterTile>, key: CachedRasterTextureKey) -> bool {
    exists|i: int|
        0 <= i < tiles.len() && key_of(
            (#[trigger] tiles[i]).cache_id,
            tiles[i].key,
            tiles[i].revision,
        ) == key
}

/// Whether tile updates have a key among them.
pub open spec fn updates_key(updates: Seq<RasterTileUpdate>, key: CachedRasterTextureKey) -> bool {
    exists|i: int|
        0 <= i < updates.len() && key_of(
            (#[trigger] updates[i]).cache.identity.id,
            updates[i].key.number,
            updates[i].revision.number,
        ) == key
}

/// Whether the targets of a batch have a key among them.
pub open spec fn targets_key(batch: RasterTileUpdateBatch, key: CachedRasterTextureKey) -> bool {
    exists|i: int|
        0 <= i < batch.targets@.len() && key_of(
            batch.cache.identity.id,
            (#[trigger] batch.targets@[i]).key.number,
            batch.targets@[i].revision.number,
        ) == key
}

/// Whether a frame needs the tile of a key: it draws it, one of its batches draws it, or
/// it is to be rasterized, alone or in a batch.
pub open spec fn needs(scene: Scene, key: CachedRasterTextureKey) -> bool {
    let batches = scene.raster_tile_update_batches@;
    ||| shows_key(scene.raster_tiles@, key)
    ||| updates_key(scene.raster_tile_updates@, key)
    ||| exists|b: int| 0 <= b < batches.len() && targets_key(#[trigger] batches[b], key)
    ||| exists|b: int|
        0 <= b < batches.len() && shows_key((#[trigger] batches[b]).scene.raster_tiles@, key)
}

proof fn joined_contains<T>(a: Seq<T>, b: Seq<T>, item: T)
    ensures
        (a + b).contains(item) <==> a.contains(item) || b.contains(item),
{
    if a.contains(item) {
        let i = choose|i: int| 0 <= i < a.len() && a[i] == item;
        assert((a + b)[i] == item);
    }
    if b.contains(item) {
        let i = choose|i: int| 0 <= i < b.len() && b[i] == item;
        assert((a + b)[a.len() + i] == item);
    }
    if (a + b).contains(item) {
        let i = choose|i: int| 0 <= i < (a + b).len() && (a + b)[i] == item;
        if i < a.len() {
            assert(a[i] == item);
        } else {
            assert(b[i - a.len()] == item);
        }
    }
}

proof fn drawn_are_shown(tiles: Seq<RasterTile>, key: CachedRasterTextureKey)
    ensures
        drawn_keys(tiles).contains(key) <==> shows_key(tiles, key),
{
    if drawn_keys(tiles).contains(key) {
        let i = choose|i: int| 0 <= i < drawn_keys(tiles).len() && drawn_keys(tiles)[i] == key;
        assert(key_of(tiles[i].cache_id, tiles[i].key, tiles[i].revision) == key);
    }
    if shows_key(tiles, key) {
        let i = choose|i: int|
            0 <= i < tiles.len() && key_of(
                (#[trigger] tiles[i]).cache_id,
                tiles[i].key,
                tiles[i].revision,
            ) == key;
        assert(drawn_keys(tiles)[i] == key);
    }
}

proof fn batches_are_shown(batches: Seq<RasterTileUpdateBatch>, key: CachedRasterTextureKey)
    ensures
        batch_drawn_keys(batches).contains(key) <==> exists|b: int|
            0 <= b < batches.len() && shows_key((#[trigger] batches[b]).scene.raster_tiles@, key),
        batch_target_keys(batches).contains(key) <==> exists|b: int|
            0 <= b < batches.len() && targets_key(#[trigger] batches[b], key),
    decreases batches.len(),
{
    if batches.len() > 0 {
        let rest = batches.drop_last();
        let last = batches.len() - 1;
        let batch = batches.last();
        let tiles = batch.scene.raster_tiles@;
        batches_are_shown(rest, key);
        assert(batches[last] == batch);
        assert(batch.scene@.lists.raster_tiles == tiles);
        joined_contains(batch_drawn_keys(rest), drawn_keys(tiles), key);
        joined_contains(batch_target_keys(rest), batch_keys(batch), key);
        drawn_are_shown(tiles, key);
        assert(batch_keys(batch).contains(key) <==> targets_key(batch, key)) by {
            if batch_keys(batch).contains(key) {
                let i = choose|i: int|
                    0 <= i < batch_keys(batch).len() && batch_keys(batch)[i] == key;
                assert(key_of(
                    batch.cache.identity.id,
                    batch.targets@[i].key.number,
                    batch.targets@[i].revision.number,
                ) == key);
            }
            if targets_key(batch, key) {
                let i = choose|i: int|
                    0 <= i < batch.targets@.len() && key_of(
                        batch.cache.identity.id,
                        (#[trigger] batch.targets@[i]).key.number,
                        batch.targets@[i].revision.number,
                    ) == key;
                assert(batch_keys(batch)[i] == key);
            }
        }
        assert forall|b: int| 0 <= b < rest.len() implies rest[b] == #[trigger] batches[b] by {}
        if exists|b: int| 0 <= b < rest.len() && targets_key(#[trigger] rest[b], key) {
            let b = choose|b: int| 0 <= b < rest.len() && targets_key(#[trigger] rest[b], key);
            assert(targets_key(batches[b], key));
        }
        if exists|b: int| 0 <= b < batches.len() && targets_key(#[trigger] batches[b], key) {
            let b = choose|b: int|
                0 <= b < batches.len() && targets_key(#[trigger] batches[b], key);
            if b < last {
                assert(targets_key(rest[b], key));
            }
        }
        if exists|b: int|
            0 <= b < rest.len() && shows_key((#[trigger] rest[b]).scene.raster_tiles@, key) {
            let b = choose|b: int|
                0 <= b < rest.len() && shows_key((#[trigger] rest[b]).scene.raster_tiles@, key);
            assert(shows_key(batches[b].scene.raster_tiles@, key));
        }
        if exists|b: int|
            0 <= b < batches.len() && shows_key(
                (#[trigger] batches[b]).scene.raster_tiles@,
                key,
            ) {
            let b = choose|b: int|
                0 <= b < batches.len() && shows_key(
                    (#[trigger] batches[b]).scene.raster_tiles@,
                    key,
                );
            if b < last {
                assert(shows_key(rest[b].scene.raster_tiles@, key));
            }
        }
    }
}

/// A frame protects exactly the tiles that it needs.
pub proof fn a_frame_protects_what_it_needs(scene: Scene, key: CachedRasterTextureKey)
    ensures
        protected_keys(scene).contains(key) <==> needs(scene, key),
{
    let batches = scene.raster_tile_update_batches@;
    let updates = scene.raster_tile_updates@;
    let drawn = drawn_keys(scene.raster_tiles@);
    drawn_are_shown(scene.raster_tiles@, key);
    batches_are_shown(batches, key);
    joined_contains(drawn, batch_drawn_keys(batches), key);
    joined_contains(drawn + batch_drawn_keys(batches), update_keys(updates), key);
    joined_contains(
        drawn + batch_drawn_keys(batches) + update_keys(updates),
        batch_target_keys(batches),
        key,
    );
    if update_keys(updates).contains(key) {
        let i = choose|i: int|
            0 <= i < update_keys(updates).len() && update_keys(updates)[i] == key;
        assert(key_of(
            updates[i].cache.identity.id,
            updates[i].key.number,
            updates[i].revision.number,
        ) == key);
    }
    if updates_key(updates, key) {
        let i = choose|i: int|
            0 <= i < updates.len() && key_of(
                (#[trigger] updates[i]).cache.identity.id,
                updates[i].key.number,
                updates[i].revision.number,
            ) == key;
        assert(update_keys(updates)[i] == key);
    }
}

proof fn reach_is_the_farthest(places: Seq<TargetPlace>, length: i32, horizontal: bool, n: int)
    requires
        0 < n <= places.len(),
    ensures
        ({
            let far = reach(places, length, horizontal, n);
            &&& forall|i: int|
                0 <= i < n ==> (if horizontal {
                    (#[trigger] places[i]).x
                } else {
                    places[i].y
                }) + length <= far
            &&& exists|i: int|
                0 <= i < n && (if horizontal {
                    (#[trigger] places[i]).x
                } else {
                    places[i].y
                }) + length == far
        }),
    decreases n,
{
    if n > 1 {
        reach_is_the_farthest(places, length, horizontal, n - 1);
        let i = choose|i: int|
            0 <= i < n - 1 && (if horizontal {
                (#[trigger] places[i]).x
            } else {
                places[i].y
            }) + length == reach(places, length, horizontal, n - 1);
        let far = reach(places, length, horizontal, n);
        let own = (if horizontal {
            places[n - 1].x
        } else {
            places[n - 1].y
        }) + length;
        assert(far == own || far == reach(places, length, horizontal, n - 1));
    } else {
        let own = (if horizontal {
            places[0].x
        } else {
            places[0].y
        }) + length;
        assert(reach(places, length, horizontal, 1) == own);
    }
}

/// The texture of a batch is the smallest that holds the rectangle around its targets
/// with a gutter on each side, and every target at its place.
pub proof fn a_batch_texture_holds_its_targets(
    batch: RasterTileUpdateBatch,
    measures: BatchMeasures,
    i: int,
    other: DeviceSize,
)
    requires
        measurable(batch, measures),
        0 <= i < batch.targets@.len(),
    ensures
        ({
            let size = batch_size(batch, measures);
            let tile = batch.texture_size;
            let gutter: int = if batch.gutter > 0 {
                batch.gutter as int
            } else {
                0
            };
            &&& size.width >= measures.width + 2 * gutter
            &&& size.height >= measures.height + 2 * gutter
            &&& size.width >= measures.places@[i].x + tile.width
            &&& size.height >= measures.places@[i].y + tile.height
            &&& other.width >= measures.width + 2 * gutter && (forall|k: int|
                0 <= k < measures.places@.len() ==> other.width >= (
                #[trigger] measures.places@[k]).x + tile.width) ==> other.width >= size.width
            &&& other.height >= measures.height + 2 * gutter && (forall|k: int|
                0 <= k < measures.places@.len() ==> other.height >= (
                #[trigger] measures.places@[k]).y + tile.height) ==> other.height >= size.height
        }),
{
    let places = measures.places@;
    let n = places.len() as int;
    let tile = batch.texture_size;
    reach_is_the_farthest(places, tile.width, true, n);
    reach_is_the_farthest(places, tile.height, false, n);
    let x = choose|x: int|
        0 <= x < n && (if true {
            (#[trigger] places[x]).x
        } else {
            places[x].y
        }) + tile.width == reach(places, tile.width, true, n);
    let y = choose|y: int|
        0 <= y < n && (if false {
            (#[trigger] places[y]).x
        } else {
            places[y].y
        }) + tile.height == reach(places, tile.height, false, n);
    assert(places[x].x + tile.width == reach(places, tile.width, true, n));
    assert(places[y].y + tile.height == reach(places, tile.height, false, n));
    assert(places[i].x + tile.width <= reach(places, tile.width, true, n));
    assert(places[i].y + tile.height <= reach(places, tile.height, false, n));
}

/// A target is placed where it was measured, and stays the target it is.
pub proof fn targets_go_to_their_places(
    targets: Seq<RasterTileUpdateTarget>,
    places: Seq<TargetPlace>,
    i: int,
)
    requires
        0 <= i < targets.len(),
    ensures
        placed_targets(targets, places).len() == targets.len(),
        placed_targets(targets, places)[i].key == targets[i].key,
        placed_targets(targets, places)[i].revision == targets[i].revision,
        placed_targets(targets, places)[i].source_x == places[i].x,
        placed_targets(targets, places)[i].source_y == places[i].y,
{
}

/// Whether a tile is that of a target of a batch, drawn where the target lies.
pub open spec fn stands_for(
    tile: RasterTile,
    batch: RasterTileUpdateBatch,
    target: RasterTileUpdateTarget,
) -> bool {
    &&& tile.bounds == target.source_bounds
    &&& tile.content_mask.bounds == target.source_bounds
    &&& tile.cache_id == batch.cache.identity.id
    &&& tile.key == target.key.number
    &&& tile.revision == target.revision.number
    &&& tile.gutter == (if batch.gutter > 0 {
        batch.gutter as int
    } else {
        0
    })
}

/// Whether anything of a target can be seen.
pub open spec fn has_area(target: RasterTileUpdateTarget) -> bool {
    !target.source_bounds.spec_intersect(target.source_bounds).empty()
}

proof fn entered_stays_ordered(entries: Seq<OrderedBounds>, bounds: Bounds)
    requires
        properly_ordered(entries),
        entries.len() < u32::MAX,
    ensures
        properly_ordered(
            entries.push(OrderedBounds { bounds, order: next_order(entries, bounds) as u32 }),
        ),
        1 <= next_order(entries, bounds) <= entries.len() + 1,
{
    orders_are_counted(entries, bounds);
    let after = entries.push(OrderedBounds { bounds, order: next_order(entries, bounds) as u32 });
    assert forall|i: int| 0 <= i < after.len() implies (#[trigger] after[i]).order as int
        == next_order(after.take(i), after[i].bounds) by {
        if i < entries.len() {
            assert(entries[i].order as int == next_order(entries.take(i), entries[i].bounds));
            assert(after.take(i) =~= entries.take(i));
        } else {
            assert(after.take(i) =~= entries);
        }
    }
}

proof fn painted_tiles(batch: RasterTileUpdateBatch, n: int)
    requires
        0 <= n <= batch.targets@.len() < u32::MAX,
    ensures
        ({
            let model = SceneModel::empty().replayed(comparison_paint(batch).take(n));
            let tiles = model.lists.raster_tiles;
            &&& model.layers.len() == 0
            &&& properly_ordered(model.bounds)
            &&& model.bounds.len() <= n
            &&& tiles.len() <= n
            &&& model.lists == PrimitiveLists { raster_tiles: tiles, ..PrimitiveLists::empty() }
            &&& forall|t: int| 0 <= t < tiles.len() ==> (#[trigger] tiles[t]).order <= n
            &&& forall|t: int|
                0 <= t < tiles.len() ==> exists|i: int|
                    0 <= i < n && has_area(batch.targets@[i]) && stands_for(
                        #[trigger] tiles[t],
                        batch,
                        #[trigger] batch.targets@[i],
                    )
            &&& forall|i: int|
                0 <= i < n && has_area(#[trigger] batch.targets@[i]) ==> exists|t: int|
                    0 <= t < tiles.len() && stands_for(
                        #[trigger] tiles[t],
                        batch,
                        batch.targets@[i],
                    )
        }),
    decreases n,
{
    let paint = comparison_paint(batch);
    let model = SceneModel::empty().replayed(paint.take(n));
    if n > 0 {
        painted_tiles(batch, n - 1);
        let before = SceneModel::empty().replayed(paint.take(n - 1));
        let target = batch.targets@[n - 1];
        let tile = comparison_tile(batch, target);
        assert(paint.take(n).drop_last() =~= paint.take(n - 1));
        assert(paint.take(n).last() == PaintOperation::Primitive(Primitive::RasterTile(tile)));
        assert(model == before.inserted(Primitive::RasterTile(tile)));
        let visible = Primitive::RasterTile(tile).clipped();
        assert(visible == target.source_bounds.spec_intersect(target.source_bounds));
        entered_stays_ordered(before.bounds, visible);
        let old_tiles = before.lists.raster_tiles;
        let tiles = model.lists.raster_tiles;
        if has_area(target) {
            let last = old_tiles.len() as int;
            assert(tiles.len() == last + 1);
            assert(stands_for(tiles[last], batch, batch.targets@[n - 1]));
            assert forall|t: int| 0 <= t < tiles.len() implies exists|i: int|
                0 <= i < n && has_area(batch.targets@[i]) && stands_for(
                    #[trigger] tiles[t],
                    batch,
                    #[trigger] batch.targets@[i],
                ) by {
                if t < last {
                    assert(tiles[t] == old_tiles[t]);
                    let i = choose|i: int|
                        0 <= i < n - 1 && has_area(batch.targets@[i]) && stands_for(
                            old_tiles[t],
                            batch,
                            #[trigger] batch.targets@[i],
                        );
                    assert(stands_for(tiles[t], batch, batch.targets@[i]));
                }
            }
            assert forall|t: int| 0 <= t < tiles.len() implies (#[trigger] tiles[t]).order
                <= n by {
                if t < last {
                    assert(tiles[t] == old_tiles[t]);
                }
            }
            assert forall|i: int|
                0 <= i < n && has_area(#[trigger] batch.targets@[i]) implies exists|t: int|
                0 <= t < tiles.len() && stands_for(
                    #[trigger] tiles[t],
                    batch,
                    batch.targets@[i],
                ) by {
                if i < n - 1 {
                    let t = choose|t: int|
                        0 <= t < old_tiles.len() && stands_for(
                            #[trigger] old_tiles[t],
                            batch,
                            batch.targets@[i],
                        );
                    assert(tiles[t] == old_tiles[t]);
                    assert(stands_for(tiles[t], batch, batch.targets@[i]));
                }
            }
            assert(model.layers.len() == 0);
            assert(properly_ordered(model.bounds));
            assert(model.bounds.len() <= n);
            assert(model.lists == PrimitiveLists {
                raster_tiles: tiles,
                ..PrimitiveLists::empty()
            });
        } else {
            assert(model == before);
            assert forall|t: int| 0 <= t < tiles.len() implies exists|i: int|
                0 <= i < n && has_area(batch.targets@[i]) && stands_for(
                    #[trigger] tiles[t],
                    batch,
                    #[trigger] batch.targets@[i],
                ) by {
                let i = choose|i: int|
                    0 <= i < n - 1 && has_area(batch.targets@[i]) && stands_for(
                        old_tiles[t],
                        batch,
                        #[trigger] batch.targets@[i],
                    );
                assert(stands_for(tiles[t], batch, batch.targets@[i]));
            }
            assert(properly_ordered(model.bounds));
        }
    } else {
        assert(paint.take(0) =~= Seq::<PaintOperation>::empty());
        assert(model.lists == PrimitiveLists {
            raster_tiles: model.lists.raster_tiles,
            ..PrimitiveLists::empty()
        });
        assert(model.bounds =~= Seq::<OrderedBounds>::empty());
        assert(properly_ordered(model.bounds));
    }
}

proof fn sorting_nothing<T: Keyed>(items: Seq<T>)
    requires
        items.len() == 0,
    ensures
        sorted_of(items).len() == 0,
{
    sorting_holds(items);
    if sorted_of(items).len() > 0 {
        let item = sorted_of(items)[0];
        assert(sorted_of(items).contains(item));
        item_kept_by_sort(items, sorted_of(items), item);
    }
}

proof fn sorting_holds<T: Keyed>(items: Seq<T>)
    ensures
        stably_sorted(items, sorted_of(items)),
{
    let sorted = a_stable_order_exists(items);
    assert(stably_sorted(items, sorted));
}

/// What is drawn to compare a batch is the tile of each of its targets, where the target
/// lies, and nothing else.
pub proof fn a_comparison_draws_the_targets(batch: RasterTileUpdateBatch)
    requires
        batch.targets@.len() < u32::MAX,
    ensures
        ({
            let lists = comparison_lists(batch);
            &&& forall|kind: PrimitiveKind|
                kind != PrimitiveKind::RasterTile ==> #[trigger] listed(lists, kind) == 0
            &&& forall|t: int|
                0 <= t < lists.raster_tiles.len() ==> exists|i: int|
                    0 <= i < batch.targets@.len() && stands_for(
                        #[trigger] lists.raster_tiles[t],
                        batch,
                        #[trigger] batch.targets@[i],
                    )
            &&& forall|i: int|
                0 <= i < batch.targets@.len() && has_area(#[trigger] batch.targets@[i])
                    ==> exists|t: int|
                    0 <= t < lists.raster_tiles.len() && stands_for(
                        #[trigger] lists.raster_tiles[t],
                        batch,
                        batch.targets@[i],
                    )
            &&& lists.raster_tiles.len() <= batch.targets@.len()
            &&& no_last_order(lists)
        }),
{
    let n = batch.targets@.len() as int;
    let paint = comparison_paint(batch);
    assert(paint.take(n) =~= paint);
    painted_tiles(batch, n);
    let before = SceneModel::empty().replayed(paint).lists;
    let lists = comparison_lists(batch);
    let tiles = before.raster_tiles;
    let sorted = lists.raster_tiles;
    sorting_nothing(before.shadows);
    sorting_nothing(before.quads);
    sorting_nothing(before.paths);
    sorting_nothing(before.underlines);
    sorting_nothing(before.monochrome_sprites);
    sorting_nothing(before.polychrome_sprites);
    sorting_nothing(before.surfaces);
    sorting_holds(tiles);
    assert forall|t: int| 0 <= t < sorted.len() implies tiles.contains(#[trigger] sorted[t]) by {
        assert(sorted.contains(sorted[t]));
        item_kept_by_sort(tiles, sorted, sorted[t]);
    }
    assert forall|t: int| 0 <= t < sorted.len() implies exists|i: int|
        0 <= i < n && stands_for(#[trigger] sorted[t], batch, #[trigger] batch.targets@[i]) by {
        let s = choose|s: int| 0 <= s < tiles.len() && tiles[s] == sorted[t];
        let i = choose|i: int|
            0 <= i < n && has_area(batch.targets@[i]) && stands_for(
                tiles[s],
                batch,
                #[trigger] batch.targets@[i],
            );
        assert(stands_for(sorted[t], batch, batch.targets@[i]));
    }
    assert forall|i: int| 0 <= i < n && has_area(#[trigger] batch.targets@[i]) implies exists|
        t: int,
    |
        0 <= t < sorted.len() && stands_for(#[trigger] sorted[t], batch, batch.targets@[i]) by {
        let s = choose|s: int|
            0 <= s < tiles.len() && stands_for(#[trigger] tiles[s], batch, batch.targets@[i]);
        assert(tiles.contains(tiles[s]));
        item_kept_by_sort(tiles, sorted, tiles[s]);
        let t = choose|t: int| 0 <= t < sorted.len() && sorted[t] == tiles[s];
        assert(stands_for(sorted[t], batch, batch.targets@[i]));
    }
    assert forall|kind: PrimitiveKind, i: int|
        0 <= i < listed(lists, kind) implies #[trigger] order_at(lists, kind, i) < u32::MAX by {
        assert(kind == PrimitiveKind::RasterTile);
        assert(tiles.contains(sorted[i]));
        let s = choose|s: int| 0 <= s < tiles.len() && tiles[s] == sorted[i];
        assert(tiles[s].order <= n);
    }
}

} // verus!
