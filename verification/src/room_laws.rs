//! How much room is taken and given: the runs of the instance buffer, the sizes that the
//! buffers grow to, and the rectangles that paths are copied by.
use vstd::prelude::*;

use vstd::arithmetic::power2::{lemma_pow2_pos, lemma_pow2_unfold, pow2};

use crate::batches::{at_start, batches_from, batches_lie_within, lanes_of, PrimitiveBatch};
use crate::encode::{around, clipped_bounds, EncodeState};
use crate::encode_laws::on_device;
use crate::frame_laws::{rasterized, tiles_in_view_stay};
use crate::frame_plan::{protected_keys, BatchMeasures, PlanContext, PlanState};
use crate::geometry::DeviceSize;
use crate::instance_buffer::{
    aligned, batch_reserved, batches_reserved, deferred_required, each_reserved, frame_required,
    grown_size, immediate_reserved, path_sprite_count, power_from, reserved, scene_reserved,
    updates_reserved, vertices_reserved, within_lists, InstanceSizes, MAX_INSTANCE_BUFFER_BYTES,
};
use crate::plan_laws::{a_frame_protects_what_it_needs, needs};
use crate::primitive::{PrimitiveKind, PrimitiveLists, RasterTile, ScenePath};
use crate::renderer::{attempt, attempts, path_texture_there};
use crate::residency::{index_of_finds, CachedRasterTexture, ResidencyModel};
use crate::scene::{RasterTileUpdate, RasterTileUpdateBatch, Scene};

verus! {

/// A run starts at the first multiple of 256 that is not before the end of the last one.
pub proof fn a_run_starts_at_the_next_multiple(offset: int)
    requires
        offset >= 0,
    ensures
        aligned(offset) % 256 == 0,
        offset <= aligned(offset) < offset + 256,
        reserved(offset, 0) == offset,
{
}

proof fn positive_product(a: int, b: int)
    requires
        a > 0,
        b > 0,
    ensures
        a * b > 0,
{
    assert(a * b > 0) by (nonlinear_arith)
        requires
            a > 0,
            b > 0,
    ;
}

proof fn vertices_take_their_room(
    state: EncodeState,
    capacity: usize,
    paths: Seq<ScenePath>,
    sizes: InstanceSizes,
    start: int,
    end: int,
)
    requires
        sizes.positive(),
        0 <= start <= end <= paths.len(),
        forall|i: int| start <= i < end ==> (#[trigger] paths[i]).vertex_count > 0,
        state.vertices_placed(capacity, paths, sizes, start, end).failed is None,
    ensures
        state.vertices_placed(capacity, paths, sizes, start, end).offset == vertices_reserved(
            paths,
            sizes,
            state.offset,
            start,
            end,
        ),
        state.failed is None,
    decreases end - start,
{
    if start < end {
        vertices_take_their_room(state, capacity, paths, sizes, start, end - 1);
        positive_product(paths[end - 1].vertex_count as int, sizes.path_vertex as int);
    }
}

proof fn surfaces_take_their_room(
    state: EncodeState,
    capacity: usize,
    size: usize,
    start: int,
    end: int,
)
    requires
        size > 0,
        start <= end,
        state.surfaces_placed(capacity, size, start, end).failed is None,
    ensures
        state.surfaces_placed(capacity, size, start, end).offset == each_reserved(
            state.offset,
            size as int,
            end - start,
        ),
        state.failed is None,
    decreases end - start,
{
    if start < end {
        surfaces_take_their_room(state, capacity, size, start, end - 1);
    }
}

proof fn tiles_take_their_room(
    state: EncodeState,
    capacity: usize,
    tiles: Seq<RasterTile>,
    textures: Seq<CachedRasterTexture>,
    size: usize,
    start: int,
    end: int,
)
    requires
        size > 0,
        0 <= start <= end <= tiles.len(),
        forall|i: int| 0 <= i < tiles.len() ==> on_device(textures, #[trigger] tiles[i]),
        state.tiles_placed(capacity, tiles, textures, size, start, end).failed is None,
    ensures
        state.tiles_placed(capacity, tiles, textures, size, start, end).offset == each_reserved(
            state.offset,
            size as int,
            end - start,
        ),
        state.failed is None,
    decreases end - start,
{
    if start < end {
        let tile = tiles[end - 1];
        index_of_finds(textures, crate::tile_laws::key_of(tile.cache_id, tile.key, tile.revision));
        assert(on_device(textures, tile));
        tiles_take_their_room(state, capacity, tiles, textures, size, start, end - 1);
    }
}

proof fn a_batch_takes_its_room(
    state: EncodeState,
    capacity: usize,
    lists: PrimitiveLists,
    sizes: InstanceSizes,
    textures: Seq<CachedRasterTexture>,
    path_texture: bool,
    batch: PrimitiveBatch,
)
    requires
        sizes.positive(),
        within_lists(lists, batch),
        forall|i: int| 0 <= i < lists.paths.len() ==> (#[trigger] lists.paths[i]).vertex_count > 0,
        forall|i: int|
            0 <= i < lists.raster_tiles.len() ==> on_device(
                textures,
                #[trigger] lists.raster_tiles[i],
            ),
        state.batch_placed(capacity, lists, sizes, textures, path_texture, batch).failed is None,
    ensures
        state.batch_placed(capacity, lists, sizes, textures, path_texture, batch).offset
            == batch_reserved(lists, sizes, state.offset, batch),
        state.failed is None,
{
    let start = batch.start as int;
    let end = batch.end as int;
    match batch.kind {
        PrimitiveKind::Path => {
            let sprites = path_sprite_count(lists.paths, start, end);
            positive_product(sprites, sizes.path_sprite as int);
            vertices_take_their_room(state, capacity, lists.paths, sizes, start, end);
        },
        PrimitiveKind::Surface => {
            surfaces_take_their_room(state, capacity, sizes.surface, start, end);
        },
        PrimitiveKind::RasterTile => {
            tiles_take_their_room(
                state,
                capacity,
                lists.raster_tiles,
                textures,
                sizes.raster_tile,
                start,
                end,
            );
        },
        PrimitiveKind::Shadow => {
            positive_product(end - start, sizes.shadow as int);
        },
        PrimitiveKind::Quad => {
            positive_product(end - start, sizes.quad as int);
        },
        PrimitiveKind::Underline => {
            positive_product(end - start, sizes.underline as int);
        },
        PrimitiveKind::MonochromeSprite => {
            positive_product(end - start, sizes.monochrome_sprite as int);
        },
        PrimitiveKind::PolychromeSprite => {
            positive_product(end - start, sizes.polychrome_sprite as int);
        },
    }
}

proof fn batches_take_their_room(
    state: EncodeState,
    capacity: usize,
    lists: PrimitiveLists,
    sizes: InstanceSizes,
    textures: Seq<CachedRasterTexture>,
    path_texture: bool,
    batches: Seq<PrimitiveBatch>,
)
    requires
        sizes.positive(),
        forall|i: int| 0 <= i < batches.len() ==> within_lists(lists, #[trigger] batches[i]),
        forall|i: int| 0 <= i < lists.paths.len() ==> (#[trigger] lists.paths[i]).vertex_count > 0,
        forall|i: int|
            0 <= i < lists.raster_tiles.len() ==> on_device(
                textures,
                #[trigger] lists.raster_tiles[i],
            ),
        state.batches_placed(capacity, lists, sizes, textures, path_texture, batches).failed
            is None,
    ensures
        state.batches_placed(capacity, lists, sizes, textures, path_texture, batches).offset
            == batches_reserved(lists, sizes, state.offset, batches),
        state.failed is None,
    decreases batches.len(),
{
    if batches.len() > 0 {
        let rest = batches.drop_last();
        let before = state.batches_placed(capacity, lists, sizes, textures, path_texture, rest);
        assert(batches[batches.len() - 1] == batches.last());
        assert forall|i: int| 0 <= i < rest.len() implies within_lists(
            lists,
            #[trigger] rest[i],
        ) by {
            assert(within_lists(lists, batches[i]));
        }
        a_batch_takes_its_room(
            before,
            capacity,
            lists,
            sizes,
            textures,
            path_texture,
            batches.last(),
        );
        batches_take_their_room(state, capacity, lists, sizes, textures, path_texture, rest);
    }
}

/// The room that is reserved for a scene is the room that encoding it takes, to the byte,
/// where all of its tiles are on the device and all of its paths have vertices.
pub proof fn reserved_room_is_taken(
    state: EncodeState,
    capacity: usize,
    scene: &Scene,
    sizes: InstanceSizes,
    textures: Seq<CachedRasterTexture>,
    path_texture: bool,
)
    requires
        sizes.positive(),
        forall|i: int|
            0 <= i < scene@.lists.paths.len() ==> (#[trigger] scene@.lists.paths[i]).vertex_count
                > 0,
        forall|i: int|
            0 <= i < scene@.lists.raster_tiles.len() ==> on_device(
                textures,
                #[trigger] scene@.lists.raster_tiles[i],
            ),
        state.scene_placed(capacity, scene@.lists, sizes, textures, path_texture).failed is None,
    ensures
        state.scene_placed(capacity, scene@.lists, sizes, textures, path_texture).offset
            == scene_reserved(scene@.lists, sizes, state.offset),
{
    let lists = scene@.lists;
    let lanes = lanes_of(lists);
    let batches = batches_from(lanes, at_start());
    crate::batches::lists_are_indexed(scene);
    batches_lie_within(lanes, at_start());
    assert forall|i: int| 0 <= i < batches.len() implies within_lists(
        lists,
        #[trigger] batches[i],
    ) by {}
    batches_take_their_room(state, capacity, lists, sizes, textures, path_texture, batches);
}

proof fn doubling_stops_in_time(power: int, needed: int, exponent: nat) -> (reached: nat)
    requires
        power == pow2(exponent),
        exponent > 0 ==> power < 2 * needed,
    ensures
        power_from(power, needed) == pow2(reached),
        power_from(power, needed) >= needed,
        reached > 0 ==> power_from(power, needed) < 2 * needed,
        reached >= exponent,
    decreases (if power < needed {
        needed - power
    } else {
        0
    }),
{
    lemma_pow2_pos(exponent);
    if power < needed {
        lemma_pow2_unfold((exponent + 1) as nat);
        doubling_stops_in_time(power * 2, needed, exponent + 1)
    } else {
        exponent
    }
}

/// Buffers that are large enough stay. Others grow to the smallest power of two that is
/// enough, as long as that is no more than the largest size of 256 MiB; else to that. The
/// exponent is handed back.
pub proof fn buffers_grow_to_the_next_power(current: usize, needed: usize) -> (exponent: nat)
    ensures
        grown_size(current, needed) is None <==> needed <= current,
        needed > current && needed > 0x1000_0000 ==> grown_size(current, needed) == Some(
            0x1000_0000usize,
        ),
        needed > current && needed <= 0x1000_0000 ==> {
            let grown = grown_size(current, needed)->0;
            &&& grown == pow2(exponent)
            &&& grown >= needed
            &&& exponent > 0 ==> grown < 2 * needed
        },
{
    vstd::arithmetic::power2::lemma2_to64();
    assert(pow2(0) == 1);
    if needed > current && needed <= MAX_INSTANCE_BUFFER_BYTES {
        let reached = doubling_stops_in_time(1, needed as int, 0);
        assert(power_from(1, needed as int) <= usize::MAX) by {
            if reached > 0 {
                assert(power_from(1, needed as int) < 2 * 0x1000_0000);
            }
        }
        reached
    } else {
        0
    }
}

/// A frame is tried with one size after the other, each twice the one before. The last one
/// is the first that it fits in, or the first that is not below the largest size. The
/// number of failed attempts is handed back, with what the last of them left and what the
/// attempt began with that counts.
pub proof fn attempts_double_the_size(
    residency: ResidencyModel,
    scene: Scene,
    measures: Seq<BatchMeasures>,
    sizes: InstanceSizes,
    root_path_texture: bool,
    size: int,
) -> (tried: (nat, ResidencyModel, ResidencyModel))
    requires
        size > 0,
    ensures
        ({
            let ended = attempts(residency, scene, measures, sizes, root_path_texture, size);
            let (failures, last, start) = tried;
            let counted = attempt(
                start,
                scene,
                measures,
                sizes,
                root_path_texture,
                ended.size,
            );
            &&& ended.size == size * pow2(failures)
            &&& ended.residency == counted.residency
            &&& ended.frame == counted.frame
            &&& ended.frame.failed is None || ended.size >= MAX_INSTANCE_BUFFER_BYTES
            &&& failures == 0 ==> start == residency
            &&& failures > 0 ==> {
                let before = attempt(
                    last,
                    scene,
                    measures,
                    sizes,
                    root_path_texture,
                    ended.size / 2,
                );
                &&& ended.size / 2 < MAX_INSTANCE_BUFFER_BYTES
                &&& before.frame.failed is Some
                &&& start == before.residency
            }
        }),
    decreases 2 * MAX_INSTANCE_BUFFER_BYTES - size,
{
    vstd::arithmetic::power2::lemma2_to64();
    let plan = attempt(residency, scene, measures, sizes, root_path_texture, size);
    if plan.frame.failed is None || size >= MAX_INSTANCE_BUFFER_BYTES {
        assert(size * pow2(0) == size);
        (0, residency, residency)
    } else {
        let (failures, last, start) = attempts_double_the_size(
            plan.residency,
            scene,
            measures,
            sizes,
            root_path_texture,
            size * 2,
        );
        lemma_pow2_unfold((failures + 1) as nat);
        let power = pow2(failures) as int;
        assert((size * 2) * power == size * (2 * power)) by (nonlinear_arith);
        if failures == 0 {
            assert(size * pow2(0) == size);
            (1, residency, start)
        } else {
            ((failures + 1) as nat, last, start)
        }
    }
}

/// A tile that is on the device and that a frame needs without rasterizing it is still
/// there, as it was, when the frame was planned, whatever came of the attempts.
pub proof fn what_a_frame_needs_stays(
    residency: ResidencyModel,
    scene: Scene,
    measures: Seq<BatchMeasures>,
    sizes: InstanceSizes,
    root_path_texture: bool,
    size: int,
    texture: CachedRasterTexture,
)
    requires
        size > 0,
        needs(scene, texture.key),
        !rasterized(scene, texture.key),
        residency.textures.contains(texture),
    ensures
        attempts(
            residency,
            scene,
            measures,
            sizes,
            root_path_texture,
            size,
        ).residency.textures.contains(texture),
    decreases 2 * MAX_INSTANCE_BUFFER_BYTES - size,
{
    a_frame_protects_what_it_needs(scene, texture.key);
    let plan = attempt(residency, scene, measures, sizes, root_path_texture, size);
    tiles_in_view_stay(
        PlanState {
            residency,
            frame: EncodeState { offset: 0, steps: Seq::empty(), failed: None },
        },
        PlanContext {
            protected: protected_keys(scene),
            sizes,
            capacity: size as usize,
            deferred_capacity: size as usize,
        },
        scene,
        measures,
        root_path_texture,
        texture,
    );
    if !(plan.frame.failed is None || size >= MAX_INSTANCE_BUFFER_BYTES) {
        what_a_frame_needs_stays(
            plan.residency,
            scene,
            measures,
            sizes,
            root_path_texture,
            size * 2,
            texture,
        );
    }
}

/// There is a texture to rasterize paths in exactly where the target has pixels, or where
/// the renderer's own has the target's sides, a negative one counting as none.
pub proof fn paths_have_a_texture_where_there_are_pixels(root: Option<DeviceSize>, size: DeviceSize)
    ensures
        path_texture_there(root, size) <==> {
            ||| size.width > 0 && size.height > 0
            ||| root matches Some(own) && own.width == (if size.width < 0 {
                0
            } else {
                size.width
            }) && own.height == (if size.height < 0 {
                0
            } else {
                size.height
            })
        },
{
}

/// The rectangle that paths are copied by at once lies around the visible part of each of
/// them, and inside every other rectangle that does.
pub proof fn a_copied_rectangle_holds_every_path(
    paths: Seq<ScenePath>,
    start: int,
    end: int,
    other: crate::geometry::Bounds,
)
    requires
        0 <= start < end <= paths.len(),
        other.finite(),
        forall|i: int|
            start <= i < end ==> (#[trigger] paths[i]).bounds.finite()
                && paths[i].content_mask.bounds.finite(),
    ensures
        around(paths, start, end).finite(),
        forall|i: int|
            start <= i < end ==> #[trigger] around(paths, start, end).encloses(
                paths[i].bounds.spec_intersect(paths[i].content_mask.bounds),
            ),
        (forall|i: int|
            start <= i < end ==> other.encloses(
                (#[trigger] paths[i]).bounds.spec_intersect(paths[i].content_mask.bounds),
            )) ==> other.encloses(around(paths, start, end)),
    decreases end - start,
{
    assert(paths[end - 1].bounds.finite());
    assert(clipped_bounds(paths[end - 1]).finite());
    if start + 1 < end {
        a_copied_rectangle_holds_every_path(paths, start, end - 1, other);
        let before = around(paths, start, end - 1);
        let last = clipped_bounds(paths[end - 1]);
        crate::number_laws::a_union_is_the_smallest_around_both(before, last, other);
        let after = around(paths, start, end);
        assert forall|i: int| start <= i < end implies #[trigger] after.encloses(
            paths[i].bounds.spec_intersect(paths[i].content_mask.bounds),
        ) by {
            if i < end - 1 {
                assert(before.encloses(
                    paths[i].bounds.spec_intersect(paths[i].content_mask.bounds),
                ));
            }
        }
    }
}

/// Behind the instances of scenes that are encoded one after the other.
pub open spec fn behind(scenes: Seq<PrimitiveLists>, sizes: InstanceSizes, offset: int) -> int
    decreases scenes.len(),
{
    if scenes.len() == 0 {
        offset
    } else {
        behind(scenes.skip(1), sizes, scene_reserved(scenes[0], sizes, offset))
    }
}

/// The scenes that are encoded with a frame: those of its updates, those of the batches that
/// are not deferred, and its own.
pub open spec fn encoded_scenes(scene: Scene) -> Seq<PrimitiveLists> {
    scene.raster_tile_updates@.map_values(|update: RasterTileUpdate| update.scene@.lists)
        + scene.raster_tile_update_batches@.filter(
        |batch: RasterTileUpdateBatch| !batch.deferred,
    ).map_values(|batch: RasterTileUpdateBatch| batch.scene@.lists) + seq![scene@.lists]
}

proof fn one_scene_more(
    scenes: Seq<PrimitiveLists>,
    last: PrimitiveLists,
    sizes: InstanceSizes,
    offset: int,
)
    ensures
        behind(scenes.push(last), sizes, offset) == scene_reserved(
            last,
            sizes,
            behind(scenes, sizes, offset),
        ),
    decreases scenes.len(),
{
    let all = scenes.push(last);
    if scenes.len() == 0 {
        assert(all.skip(1) =~= Seq::<PrimitiveLists>::empty());
        assert(behind(all.skip(1), sizes, scene_reserved(last, sizes, offset)) == scene_reserved(
            last,
            sizes,
            offset,
        ));
    } else {
        assert(all.skip(1) =~= scenes.skip(1).push(last));
        one_scene_more(scenes.skip(1), last, sizes, scene_reserved(scenes[0], sizes, offset));
    }
}

proof fn updates_are_encoded(
    before: Seq<PrimitiveLists>,
    updates: Seq<RasterTileUpdate>,
    sizes: InstanceSizes,
    offset: int,
)
    ensures
        updates_reserved(updates, sizes, behind(before, sizes, offset)) == behind(
            before + updates.map_values(|update: RasterTileUpdate| update.scene@.lists),
            sizes,
            offset,
        ),
    decreases updates.len(),
{
    let lists = |update: RasterTileUpdate| update.scene@.lists;
    if updates.len() > 0 {
        let rest = updates.drop_last();
        updates_are_encoded(before, rest, sizes, offset);
        one_scene_more(
            before + rest.map_values(lists),
            updates.last().scene@.lists,
            sizes,
            offset,
        );
        assert(before + updates.map_values(lists) =~= (before + rest.map_values(lists)).push(
            updates.last().scene@.lists,
        ));
    } else {
        assert(before + updates.map_values(lists) =~= before);
    }
}

proof fn batches_are_encoded(
    before: Seq<PrimitiveLists>,
    batches: Seq<RasterTileUpdateBatch>,
    sizes: InstanceSizes,
    offset: int,
)
    ensures
        immediate_reserved(batches, sizes, behind(before, sizes, offset)) == behind(
            before + batches.filter(|batch: RasterTileUpdateBatch| !batch.deferred).map_values(
                |batch: RasterTileUpdateBatch| batch.scene@.lists,
            ),
            sizes,
            offset,
        ),
    decreases batches.len(),
{
    reveal(Seq::filter);
    let lists = |batch: RasterTileUpdateBatch| batch.scene@.lists;
    let immediate = |batch: RasterTileUpdateBatch| !batch.deferred;
    if batches.len() > 0 {
        let rest = batches.drop_last();
        batches_are_encoded(before, rest, sizes, offset);
        if !batches.last().deferred {
            one_scene_more(
                before + rest.filter(immediate).map_values(lists),
                batches.last().scene@.lists,
                sizes,
                offset,
            );
            assert(batches.filter(immediate) == rest.filter(immediate).push(batches.last()));
            assert(before + batches.filter(immediate).map_values(lists) =~= (before + rest.filter(
                immediate,
            ).map_values(lists)).push(batches.last().scene@.lists));
        }
    } else {
        assert(batches.filter(immediate).map_values(lists) =~= Seq::<PrimitiveLists>::empty());
        assert(before + batches.filter(immediate).map_values(lists) =~= before);
    }
}

/// A frame reserves the room of the scenes that are encoded with it, one behind the other,
/// and no more.
pub proof fn a_frame_reserves_its_scenes(scene: Scene, sizes: InstanceSizes)
    ensures
        frame_required(scene, sizes) == behind(encoded_scenes(scene), sizes, 0),
{
    let updates = scene.raster_tile_updates@;
    let batches = scene.raster_tile_update_batches@;
    let none = Seq::<PrimitiveLists>::empty();
    let first = updates.map_values(|update: RasterTileUpdate| update.scene@.lists);
    let second = batches.filter(|batch: RasterTileUpdateBatch| !batch.deferred).map_values(
        |batch: RasterTileUpdateBatch| batch.scene@.lists,
    );
    assert(behind(none, sizes, 0) == 0);
    updates_are_encoded(none, updates, sizes, 0);
    assert(none + first =~= first);
    batches_are_encoded(first, batches, sizes, 0);
    one_scene_more(first + second, scene@.lists, sizes, 0);
    assert(encoded_scenes(scene) =~= (first + second).push(scene@.lists));
}

/// A deferred batch needs the room of its scene, and where it is compared that of a raster
/// tile for each target more.
pub proof fn a_deferred_batch_reserves_its_targets(
    batch: RasterTileUpdateBatch,
    longer: RasterTileUpdateBatch,
    sizes: InstanceSizes,
)
    requires
        sizes.raster_tile > 0,
        longer.scene == batch.scene,
        longer.verify == batch.verify,
        longer.targets@.len() == batch.targets@.len() + 1,
    ensures
        !batch.verify || batch.targets@.len() == 0 ==> deferred_required(batch, sizes)
            == scene_reserved(batch.scene@.lists, sizes, 0),
        batch.verify ==> deferred_required(longer, sizes) == aligned(
            deferred_required(batch, sizes),
        ) + sizes.raster_tile,
{
}

} // verus!
