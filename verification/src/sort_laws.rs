//! What finishing a scene leaves of it: every primitive, sorted by order, and those that
//! share an order in the sequence in which they were painted; sprites of one order by
//! their part of the atlas first.
use vstd::prelude::*;

use crate::primitive::{
    MonochromeSprite, PaintSurface, PolychromeSprite, Quad, RasterTile, ScenePath, Shadow, Underline,
};
use crate::scene::SceneModel;
use crate::stable_sort::{stably_sorted, with_key, Keyed};

verus! {

proof fn keyed_are_filtered<T: Keyed>(items: Seq<T>, key: int)
    ensures
        with_key(items, key) == items.filter(|item: T| item.key() == key),
    decreases items.len(),
{
    reveal(Seq::filter);
    let keeps = |item: T| item.key() == key;
    if items.len() > 0 {
        keyed_are_filtered(items.drop_last(), key);
    } else {
        assert(with_key(items, key) =~= items.filter(keeps));
    }
}

proof fn sorted_keeps<T: Keyed>(input: Seq<T>, output: Seq<T>, key: int, keeps: spec_fn(T) -> bool)
    requires
        stably_sorted(input, output),
        forall|item: T| #[trigger] keeps(item) <==> item.key() == key,
    ensures
        output.filter(keeps) == input.filter(keeps),
{
    keyed_are_filtered(input, key);
    keyed_are_filtered(output, key);
    assert(with_key(output, key) == with_key(input, key));
    assert(keeps =~= (|item: T| item.key() == key));
}

/// Finishing loses no primitive, adds none and swaps none of one order: what a list holds
/// at an order is afterwards what it held before, in the same sequence. Of sprites this
/// holds of each part of the atlas.
pub proof fn finishing_keeps_what_was_painted(
    painted: SceneModel,
    finished: SceneModel,
    order: u32,
    tile_id: u32,
)
    requires
        painted.finished_as(finished),
    ensures
        ({
            let before = painted.lists;
            let after = finished.lists;
            &&& after.shadows.filter(|item: Shadow| item.order == order)
                == before.shadows.filter(|item: Shadow| item.order == order)
            &&& after.quads.filter(|item: Quad| item.order == order)
                == before.quads.filter(|item: Quad| item.order == order)
            &&& after.paths.filter(|item: ScenePath| item.order == order)
                == before.paths.filter(|item: ScenePath| item.order == order)
            &&& after.underlines.filter(|item: Underline| item.order == order)
                == before.underlines.filter(
                |item: Underline| item.order == order,
            )
            &&& after.monochrome_sprites.filter(
                |item: MonochromeSprite| item.order == order && item.tile.tile_id == tile_id,
            ) == before.monochrome_sprites.filter(
                |item: MonochromeSprite| item.order == order && item.tile.tile_id == tile_id,
            )
            &&& after.polychrome_sprites.filter(
                |item: PolychromeSprite| item.order == order && item.tile.tile_id == tile_id,
            ) == before.polychrome_sprites.filter(
                |item: PolychromeSprite| item.order == order && item.tile.tile_id == tile_id,
            )
            &&& after.surfaces.filter(|item: PaintSurface| item.order == order)
                == before.surfaces.filter(
                |item: PaintSurface| item.order == order,
            )
            &&& after.raster_tiles.filter(|item: RasterTile| item.order == order)
                == before.raster_tiles.filter(
                |item: RasterTile| item.order == order,
            )
        }),
{
    let before = painted.lists;
    let after = finished.lists;
    let key = order as int;
    let sprite_key = order * 0x1_0000_0000 + tile_id;
    sorted_keeps(
        before.shadows,
        after.shadows,
        key,
        |item: Shadow| item.order == order,
    );
    sorted_keeps(
        before.quads,
        after.quads,
        key,
        |item: Quad| item.order == order,
    );
    sorted_keeps(
        before.paths,
        after.paths,
        key,
        |item: ScenePath| item.order == order,
    );
    sorted_keeps(
        before.underlines,
        after.underlines,
        key,
        |item: Underline| item.order == order,
    );
    sorted_keeps(
        before.monochrome_sprites,
        after.monochrome_sprites,
        sprite_key,
        |item: MonochromeSprite| item.order == order && item.tile.tile_id == tile_id,
    );
    sorted_keeps(
        before.polychrome_sprites,
        after.polychrome_sprites,
        sprite_key,
        |item: PolychromeSprite| item.order == order && item.tile.tile_id == tile_id,
    );
    sorted_keeps(
        before.surfaces,
        after.surfaces,
        key,
        |item: PaintSurface| item.order == order,
    );
    sorted_keeps(
        before.raster_tiles,
        after.raster_tiles,
        key,
        |item: RasterTile| item.order == order,
    );
}

/// Whether sprites stand by order, and those of one order by their part of the atlas.
pub open spec fn by_order_and_part(order: u32, tile_id: u32, later: u32, later_tile: u32) -> bool {
    order < later || (order == later && tile_id <= later_tile)
}

/// The lists of a finished scene are sorted by order, those of sprites within one order
/// by their part of the atlas. Nothing else of the scene changes.
pub proof fn finishing_sorts_every_list(
    painted: SceneModel,
    finished: SceneModel,
    i: int,
    j: int,
)
    requires
        painted.finished_as(finished),
        0 <= i < j,
    ensures
        ({
            let lists = finished.lists;
            &&& j < lists.shadows.len() ==> lists.shadows[i].order <= lists.shadows[j].order
            &&& j < lists.quads.len() ==> lists.quads[i].order <= lists.quads[j].order
            &&& j < lists.paths.len() ==> lists.paths[i].order <= lists.paths[j].order
            &&& j < lists.underlines.len() ==> lists.underlines[i].order
                <= lists.underlines[j].order
            &&& j < lists.surfaces.len() ==> lists.surfaces[i].order <= lists.surfaces[j].order
            &&& j < lists.raster_tiles.len() ==> lists.raster_tiles[i].order
                <= lists.raster_tiles[j].order
            &&& j < lists.monochrome_sprites.len() ==> by_order_and_part(
                lists.monochrome_sprites[i].order,
                lists.monochrome_sprites[i].tile.tile_id,
                lists.monochrome_sprites[j].order,
                lists.monochrome_sprites[j].tile.tile_id,
            )
            &&& j < lists.polychrome_sprites.len() ==> by_order_and_part(
                lists.polychrome_sprites[i].order,
                lists.polychrome_sprites[i].tile.tile_id,
                lists.polychrome_sprites[j].order,
                lists.polychrome_sprites[j].tile.tile_id,
            )
            &&& lists.shadows.len() == painted.lists.shadows.len()
            &&& lists.quads.len() == painted.lists.quads.len()
            &&& lists.paths.len() == painted.lists.paths.len()
            &&& lists.underlines.len() == painted.lists.underlines.len()
            &&& lists.monochrome_sprites.len() == painted.lists.monochrome_sprites.len()
            &&& lists.polychrome_sprites.len() == painted.lists.polychrome_sprites.len()
            &&& lists.surfaces.len() == painted.lists.surfaces.len()
            &&& lists.raster_tiles.len() == painted.lists.raster_tiles.len()
            &&& finished.operations == painted.operations
            &&& finished.bounds == painted.bounds
            &&& finished.layers == painted.layers
            &&& finished.updates == painted.updates
            &&& finished.batches == painted.batches
            &&& finished.compositors == painted.compositors
            &&& finished.trace == painted.trace
        }),
{
    let lists = finished.lists;
    if j < lists.shadows.len() {
        assert(lists.shadows[i].key() <= lists.shadows[j].key());
    }
    if j < lists.quads.len() {
        assert(lists.quads[i].key() <= lists.quads[j].key());
    }
    if j < lists.paths.len() {
        assert(lists.paths[i].key() <= lists.paths[j].key());
    }
    if j < lists.underlines.len() {
        assert(lists.underlines[i].key() <= lists.underlines[j].key());
    }
    if j < lists.surfaces.len() {
        assert(lists.surfaces[i].key() <= lists.surfaces[j].key());
    }
    if j < lists.raster_tiles.len() {
        assert(lists.raster_tiles[i].key() <= lists.raster_tiles[j].key());
    }
    if j < lists.monochrome_sprites.len() {
        assert(lists.monochrome_sprites[i].key() <= lists.monochrome_sprites[j].key());
    }
    if j < lists.polychrome_sprites.len() {
        assert(lists.polychrome_sprites[i].key() <= lists.polychrome_sprites[j].key());
    }
}

} // verus!
