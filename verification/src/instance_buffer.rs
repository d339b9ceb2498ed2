//! The buffer that instances are written to: how large it has to be, how it is
//! grown, and the pool that buffers come from.
use vstd::prelude::*;

use crate::batches::{
    at_start, batches_from, indexed, lane, lanes_of, PrimitiveBatch,
};
use crate::primitive::{PrimitiveKind, PrimitiveLists, ScenePath};
use crate::scene::{RasterTileUpdate, RasterTileUpdateBatch, Scene};

verus! {

/// Where a run of instances may start.
pub const INSTANCE_ALIGNMENT: usize = 256;

/// The size of a buffer that was never grown.
pub const DEFAULT_INSTANCE_BUFFER_BYTES: usize = 2 * 1024 * 1024;

/// The size that no buffer exceeds.
pub const MAX_INSTANCE_BUFFER_BYTES: usize = 256 * 1024 * 1024;

/// The bytes of one instance of each sort.
#[derive(Clone, Copy, Debug, PartialEq, Eq, Structural)]
pub struct InstanceSizes {
    pub shadow: usize,
    pub quad: usize,
    pub path_vertex: usize,
    pub path_sprite: usize,
    pub underline: usize,
    pub monochrome_sprite: usize,
    pub polychrome_sprite: usize,
    pub surface: usize,
    pub raster_tile: usize,
}

impl InstanceSizes {
    /// Every instance takes up room.
    pub open spec fn positive(self) -> bool {
        &&& self.shadow > 0
        &&& self.quad > 0
        &&& self.path_vertex > 0
        &&& self.path_sprite > 0
        &&& self.underline > 0
        &&& self.monochrome_sprite > 0
        &&& self.polychrome_sprite > 0
        &&& self.surface > 0
        &&& self.raster_tile > 0
    }
}

/// The next place at which a run may start.
pub open spec fn aligned(offset: int) -> int {
    ((offset + 255) / 256) * 256
}

/// Behind a run of so many bytes; a run of none takes up no place.
pub open spec fn reserved(offset: int, bytes: int) -> int {
    if bytes == 0 {
        offset
    } else {
        aligned(offset) + bytes
    }
}

/// A number of bytes as far as a machine word holds it.
pub open spec fn fitted(bytes: int) -> usize {
    if bytes > usize::MAX {
        usize::MAX
    } else {
        bytes as usize
    }
}

/// The next place at which a run may start, as far as a machine word holds it.
pub fn align_offset(offset: usize) -> (result: usize)
    ensures
        result == fitted(aligned(offset as int)),
{
    let wide: u128 = (offset as u128 + 255) / 256 * 256;
    if wide > usize::MAX as u128 {
        usize::MAX
    } else {
        wide as usize
    }
}

proof fn product_is_counted(a: int, b: int)
    requires
        0 <= a <= u64::MAX,
        0 <= b <= u64::MAX,
    ensures
        0 <= a * b <= u64::MAX * u64::MAX,
{
    assert(0 <= a * b <= u64::MAX * u64::MAX) by (nonlinear_arith)
        requires
            0 <= a <= u64::MAX,
            0 <= b <= u64::MAX,
    ;
}

/// Behind a run of so many instances of one size, as far as a machine word holds
/// it.
pub fn reserve(offset: usize, count: usize, size: usize) -> (result: usize)
    ensures
        result == fitted(reserved(offset as int, count * size)),
{
    proof {
        product_is_counted(count as int, size as int);
    }
    let bytes: u128 = (count as u128) * (size as u128);
    if bytes == 0 {
        return offset;
    }
    let start: u128 = (offset as u128 + 255) / 256 * 256;
    let end: u128 = start + bytes;
    if end > usize::MAX as u128 {
        usize::MAX
    } else {
        end as usize
    }
}

/// A run ends where it would with the place before it cut to a machine word.
pub proof fn reserving_fits(offset: int, bytes: int)
    requires
        offset >= 0,
        bytes >= 0,
    ensures
        fitted(reserved(offset, bytes)) == fitted(reserved(fitted(offset) as int, bytes)),
        reserved(offset, bytes) >= offset,
{
}

/// Behind the vertices of paths.
pub open spec fn vertices_reserved(
    paths: Seq<ScenePath>,
    sizes: InstanceSizes,
    offset: int,
    start: int,
    end: int,
) -> int
    decreases end - start,
{
    if end <= start {
        offset
    } else {
        reserved(
            vertices_reserved(paths, sizes, offset, start, end - 1),
            paths[end - 1].vertex_count * sizes.path_vertex,
        )
    }
}

/// The rectangles that paths are copied by: each of its own where all share an
/// order, else one around all.
pub open spec fn path_sprite_count(paths: Seq<ScenePath>, start: int, end: int) -> int {
    if end <= start {
        0
    } else if paths[end - 1].order == paths[start].order {
        end - start
    } else {
        1
    }
}

/// Behind so many runs of one instance each.
pub open spec fn each_reserved(offset: int, size: int, count: int) -> int
    decreases count,
{
    if count <= 0 {
        offset
    } else {
        reserved(each_reserved(offset, size, count - 1), size)
    }
}

/// Behind the instances of a batch.
pub open spec fn batch_reserved(
    lists: PrimitiveLists,
    sizes: InstanceSizes,
    offset: int,
    batch: PrimitiveBatch,
) -> int {
    let count = batch.end - batch.start;
    match batch.kind {
        PrimitiveKind::Shadow => reserved(offset, count * sizes.shadow),
        PrimitiveKind::Quad => reserved(offset, count * sizes.quad),
        PrimitiveKind::Path => reserved(
            vertices_reserved(lists.paths, sizes, offset, batch.start as int, batch.end as int),
            path_sprite_count(lists.paths, batch.start as int, batch.end as int)
                * sizes.path_sprite,
        ),
        PrimitiveKind::Underline => reserved(offset, count * sizes.underline),
        PrimitiveKind::MonochromeSprite => reserved(offset, count * sizes.monochrome_sprite),
        PrimitiveKind::PolychromeSprite => reserved(offset, count * sizes.polychrome_sprite),
        PrimitiveKind::Surface => each_reserved(offset, sizes.surface as int, count),
        PrimitiveKind::RasterTile => each_reserved(offset, sizes.raster_tile as int, count),
    }
}

/// Behind the instances of batches.
pub open spec fn batches_reserved(
    lists: PrimitiveLists,
    sizes: InstanceSizes,
    offset: int,
    batches: Seq<PrimitiveBatch>,
) -> int
    decreases batches.len(),
{
    if batches.len() == 0 {
        offset
    } else {
        batch_reserved(
            lists,
            sizes,
            batches_reserved(lists, sizes, offset, batches.drop_last()),
            batches.last(),
        )
    }
}

/// Behind the instances of the primitives of a scene.
pub open spec fn scene_reserved(lists: PrimitiveLists, sizes: InstanceSizes, offset: int) -> int {
    batches_reserved(lists, sizes, offset, batches_from(lanes_of(lists), at_start()))
}

/// Behind the instances of the scenes of tile updates.
pub open spec fn updates_reserved(
    updates: Seq<RasterTileUpdate>,
    sizes: InstanceSizes,
    offset: int,
) -> int
    decreases updates.len(),
{
    if updates.len() == 0 {
        offset
    } else {
        scene_reserved(
            updates.last().scene@.lists,
            sizes,
            updates_reserved(updates.drop_last(), sizes, offset),
        )
    }
}

/// Behind the instances of the scenes of batches that are drawn with the frame.
pub open spec fn immediate_reserved(
    batches: Seq<RasterTileUpdateBatch>,
    sizes: InstanceSizes,
    offset: int,
) -> int
    decreases batches.len(),
{
    if batches.len() == 0 {
        offset
    } else {
        let before = immediate_reserved(batches.drop_last(), sizes, offset);
        if batches.last().deferred {
            before
        } else {
            scene_reserved(batches.last().scene@.lists, sizes, before)
        }
    }
}

/// The bytes that a deferred batch needs in a buffer of its own: its scene, and a
/// tile for each target that is compared.
pub open spec fn deferred_required(batch: RasterTileUpdateBatch, sizes: InstanceSizes) -> int {
    let drawn = scene_reserved(batch.scene@.lists, sizes, 0);
    if batch.verify {
        each_reserved(drawn, sizes.raster_tile as int, batch.targets@.len() as int)
    } else {
        drawn
    }
}

/// The most bytes that a deferred batch needs.
pub open spec fn deferred_most(batches: Seq<RasterTileUpdateBatch>, sizes: InstanceSizes) -> int
    decreases batches.len(),
{
    if batches.len() == 0 {
        0
    } else {
        let before = deferred_most(batches.drop_last(), sizes);
        if batches.last().deferred && deferred_required(batches.last(), sizes) > before {
            deferred_required(batches.last(), sizes)
        } else {
            before
        }
    }
}

/// The bytes that the frame itself needs: tile updates, immediate batches, then
/// the scene.
pub open spec fn frame_required(scene: Scene, sizes: InstanceSizes) -> int {
    scene_reserved(
        scene@.lists,
        sizes,
        immediate_reserved(
            scene.raster_tile_update_batches@,
            sizes,
            updates_reserved(scene.raster_tile_updates@, sizes, 0),
        ),
    )
}

/// The most bytes that one of the first `n` compositor surfaces needs.
pub open spec fn compositor_most(scene: Scene, sizes: InstanceSizes, n: int) -> int
    decreases scene, n,
{
    if n <= 0 || n > scene.raster_compositor_surfaces@.len() {
        0
    } else {
        let before = compositor_most(scene, sizes, n - 1);
        let needed = required(scene.raster_compositor_surfaces[n - 1].scene, sizes);
        if needed > before {
            needed
        } else {
            before
        }
    }
}

/// The bytes that a buffer needs to hold whatever is drawn at once of a scene: the
/// frame, any deferred batch, any compositor surface.
pub open spec fn required(scene: Scene, sizes: InstanceSizes) -> int
    decreases scene, scene.raster_compositor_surfaces@.len() + 1,
{
    let frame = frame_required(scene, sizes);
    let deferred = deferred_most(scene.raster_tile_update_batches@, sizes);
    let compositor = compositor_most(
        scene,
        sizes,
        scene.raster_compositor_surfaces@.len() as int,
    );
    let most = if frame >= deferred {
        frame
    } else {
        deferred
    };
    if most >= compositor {
        most
    } else {
        compositor
    }
}

/// Whether a scene needs a texture to rasterize paths in.
pub fn scene_needs_path_intermediate(scene: &Scene) -> (needed: bool)
    ensures
        needed == (scene@.lists.paths.len() > 0),
{
    scene.paths.len() > 0
}

/// Reserving room never gives room back.
pub proof fn each_reserved_grows(offset: int, size: int, count: int)
    requires
        offset >= 0,
        size >= 0,
    ensures
        each_reserved(offset, size, count) >= offset,
    decreases count,
{
    if count > 0 {
        each_reserved_grows(offset, size, count - 1);
    }
}

proof fn product_not_negative(a: int, b: int)
    requires
        a >= 0,
        b >= 0,
    ensures
        a * b >= 0,
{
    assert(a * b >= 0) by (nonlinear_arith)
        requires
            a >= 0,
            b >= 0,
    ;
}

/// Reserving room for paths never gives room back.
pub proof fn vertices_reserved_grows(
    paths: Seq<ScenePath>,
    sizes: InstanceSizes,
    offset: int,
    start: int,
    end: int,
)
    requires
        offset >= 0,
    ensures
        vertices_reserved(paths, sizes, offset, start, end) >= offset,
    decreases end - start,
{
    if end > start {
        vertices_reserved_grows(paths, sizes, offset, start, end - 1);
        product_not_negative(paths[end - 1].vertex_count as int, sizes.path_vertex as int);
    }
}

/// Reserving room for a batch never gives room back.
pub proof fn batch_reserved_grows(
    lists: PrimitiveLists,
    sizes: InstanceSizes,
    offset: int,
    batch: PrimitiveBatch,
)
    requires
        offset >= 0,
        batch.start <= batch.end,
    ensures
        batch_reserved(lists, sizes, offset, batch) >= offset,
{
    let count = batch.end - batch.start;
    product_not_negative(count, sizes.shadow as int);
    product_not_negative(count, sizes.quad as int);
    product_not_negative(count, sizes.underline as int);
    product_not_negative(count, sizes.monochrome_sprite as int);
    product_not_negative(count, sizes.polychrome_sprite as int);
    product_not_negative(
        path_sprite_count(lists.paths, batch.start as int, batch.end as int),
        sizes.path_sprite as int,
    );
    vertices_reserved_grows(
        lists.paths,
        sizes,
        offset,
        batch.start as int,
        batch.end as int,
    );
    each_reserved_grows(offset, sizes.surface as int, count);
    each_reserved_grows(offset, sizes.raster_tile as int, count);
}

fn reserve_each(offset: usize, size: usize, count: usize, Ghost(from): Ghost<int>) -> (result: usize)
    requires
        from >= 0,
        offset == fitted(from),
    ensures
        result == fitted(each_reserved(from, size as int, count as int)),
{
    let mut result: usize = offset;
    let mut i: usize = 0;
    while i < count
        invariant
            i <= count,
            from >= 0,
            result == fitted(each_reserved(from, size as int, i as int)),
        decreases count - i,
    {
        proof {
            each_reserved_grows(from, size as int, i as int);
            reserving_fits(each_reserved(from, size as int, i as int), size as int);
        }
        result = reserve(result, 1, size);
        i = i + 1;
    }
    result
}

fn reserve_vertices(
    paths: &Vec<ScenePath>,
    sizes: &InstanceSizes,
    offset: usize,
    start: usize,
    end: usize,
    Ghost(from): Ghost<int>,
) -> (result: usize)
    requires
        start <= end <= paths@.len(),
        from >= 0,
        offset == fitted(from),
    ensures
        result == fitted(
            vertices_reserved(paths@, *sizes, from, start as int, end as int),
        ),
{
    let mut result: usize = offset;
    let mut i: usize = start;
    while i < end
        invariant
            start <= i <= end <= paths@.len(),
            from >= 0,
            result == fitted(vertices_reserved(paths@, *sizes, from, start as int, i as int)),
        decreases end - i,
    {
        proof {
            vertices_reserved_grows(paths@, *sizes, from, start as int, i as int);
            product_not_negative(
                paths@[i as int].vertex_count as int,
                sizes.path_vertex as int,
            );
            reserving_fits(
                vertices_reserved(paths@, *sizes, from, start as int, i as int),
                paths@[i as int].vertex_count * sizes.path_vertex,
            );
        }
        result = reserve(result, paths[i].vertex_count, sizes.path_vertex);
        i = i + 1;
    }
    result
}

/// Every batch lies within the list of its sort.
pub open spec fn within_lists(lists: PrimitiveLists, batch: PrimitiveBatch) -> bool {
    batch.start < batch.end <= lane(lists, batch.kind.rank()).len()
}

fn reserve_batch(
    scene: &Scene,
    sizes: &InstanceSizes,
    offset: usize,
    batch: PrimitiveBatch,
    Ghost(from): Ghost<int>,
) -> (result: usize)
    requires
        within_lists(scene@.lists, batch),
        from >= 0,
        offset == fitted(from),
    ensures
        result == fitted(batch_reserved(scene@.lists, *sizes, from, batch)),
{
    let count: usize = batch.end - batch.start;
    proof {
        product_not_negative(count as int, sizes.shadow as int);
        product_not_negative(count as int, sizes.quad as int);
        product_not_negative(count as int, sizes.underline as int);
        product_not_negative(count as int, sizes.monochrome_sprite as int);
        product_not_negative(count as int, sizes.polychrome_sprite as int);
    }
    match batch.kind {
        PrimitiveKind::Shadow => {
            proof {
                reserving_fits(from, count * sizes.shadow);
            }
            reserve(offset, count, sizes.shadow)
        },
        PrimitiveKind::Quad => {
            proof {
                reserving_fits(from, count * sizes.quad);
            }
            reserve(offset, count, sizes.quad)
        },
        PrimitiveKind::Path => {
            let vertices: usize = reserve_vertices(
                &scene.paths,
                sizes,
                offset,
                batch.start,
                batch.end,
                Ghost(from),
            );
            let sprites: usize = if scene.paths[batch.end - 1].order
                == scene.paths[batch.start].order {
                count
            } else {
                1
            };
            proof {
                let behind = vertices_reserved(
                    scene@.lists.paths,
                    *sizes,
                    from,
                    batch.start as int,
                    batch.end as int,
                );
                vertices_reserved_grows(
                    scene@.lists.paths,
                    *sizes,
                    from,
                    batch.start as int,
                    batch.end as int,
                );
                product_not_negative(sprites as int, sizes.path_sprite as int);
                reserving_fits(behind, sprites * sizes.path_sprite);
            }
            reserve(vertices, sprites, sizes.path_sprite)
        },
        PrimitiveKind::Underline => {
            proof {
                reserving_fits(from, count * sizes.underline);
            }
            reserve(offset, count, sizes.underline)
        },
        PrimitiveKind::MonochromeSprite => {
            proof {
                reserving_fits(from, count * sizes.monochrome_sprite);
            }
            reserve(offset, count, sizes.monochrome_sprite)
        },
        PrimitiveKind::PolychromeSprite => {
            proof {
                reserving_fits(from, count * sizes.polychrome_sprite);
            }
            reserve(offset, count, sizes.polychrome_sprite)
        },
        PrimitiveKind::Surface => reserve_each(offset, sizes.surface, count, Ghost(from)),
        PrimitiveKind::RasterTile => reserve_each(offset, sizes.raster_tile, count, Ghost(from)),
    }
}

/// Reserving room for batches never gives room back.
pub proof fn batches_reserved_grows(
    lists: PrimitiveLists,
    sizes: InstanceSizes,
    offset: int,
    batches: Seq<PrimitiveBatch>,
)
    requires
        offset >= 0,
        forall|i: int| 0 <= i < batches.len() ==> within_lists(lists, #[trigger] batches[i]),
    ensures
        batches_reserved(lists, sizes, offset, batches) >= offset,
    decreases batches.len(),
{
    if batches.len() > 0 {
        let rest = batches.drop_last();
        assert forall|i: int| 0 <= i < rest.len() implies within_lists(
            lists,
            #[trigger] rest[i],
        ) by {
            assert(within_lists(lists, batches[i]));
        }
        batches_reserved_grows(lists, sizes, offset, rest);
        assert(within_lists(lists, batches[batches.len() - 1]));
        batch_reserved_grows(
            lists,
            sizes,
            batches_reserved(lists, sizes, offset, rest),
            batches.last(),
        );
    }
}

/// Reserving room for a scene never gives room back.
pub proof fn scene_reserved_grows(lists: PrimitiveLists, sizes: InstanceSizes, offset: int)
    requires
        offset >= 0,
        indexed(lanes_of(lists), at_start()),
    ensures
        scene_reserved(lists, sizes, offset) >= offset,
{
    crate::batches::batches_lie_within(lanes_of(lists), at_start());
    let batches = batches_from(lanes_of(lists), at_start());
    assert forall|i: int| 0 <= i < batches.len() implies within_lists(
        lists,
        #[trigger] batches[i],
    ) by {}
    batches_reserved_grows(lists, sizes, offset, batches);
}

fn reserve_scene(
    scene: &Scene,
    sizes: &InstanceSizes,
    offset: usize,
    Ghost(from): Ghost<int>,
) -> (result: usize)
    requires
        from >= 0,
        offset == fitted(from),
    ensures
        result == fitted(scene_reserved(scene@.lists, *sizes, from)),
        scene_reserved(scene@.lists, *sizes, from) >= from,
{
    let batches = scene.batches();
    proof {
        crate::batches::lists_are_indexed(scene);
        crate::batches::batches_lie_within(lanes_of(scene@.lists), at_start());
        scene_reserved_grows(scene@.lists, *sizes, from);
        assert(batches@.take(0) =~= Seq::<PrimitiveBatch>::empty());
    }
    let mut result: usize = offset;
    let mut i: usize = 0;
    while i < batches.len()
        invariant
            i <= batches@.len(),
            from >= 0,
            forall|k: int|
                0 <= k < batches@.len() ==> within_lists(scene@.lists, #[trigger] batches@[k]),
            result == fitted(
                batches_reserved(scene@.lists, *sizes, from, batches@.take(i as int)),
            ),
        decreases batches@.len() - i,
    {
        let ghost part = batches@.take(i as int);
        proof {
            assert(batches@.take(i + 1).drop_last() =~= part);
            assert(batches@.take(i + 1).last() == batches@[i as int]);
            assert forall|k: int| 0 <= k < part.len() implies within_lists(
                scene@.lists,
                #[trigger] part[k],
            ) by {
                assert(part[k] == batches@[k]);
            }
            batches_reserved_grows(scene@.lists, *sizes, from, part);
            assert(within_lists(scene@.lists, batches@[i as int]));
        }
        result = reserve_batch(
            scene,
            sizes,
            result,
            batches[i],
            Ghost(batches_reserved(scene@.lists, *sizes, from, part)),
        );
        i = i + 1;
    }
    proof {
        assert(batches@.take(i as int) =~= batches@);
    }
    result
}

fn reserve_frame(scene: &Scene, sizes: &InstanceSizes) -> (result: usize)
    ensures
        result == fitted(frame_required(*scene, *sizes)),
        frame_required(*scene, *sizes) >= 0,
{
    let mut offset: usize = 0;
    let mut i: usize = 0;
    let ghost updates = scene.raster_tile_updates@;
    proof {
        assert(updates.take(0) =~= Seq::<RasterTileUpdate>::empty());
    }
    while i < scene.raster_tile_updates.len()
        invariant
            updates == scene.raster_tile_updates@,
            i <= updates.len(),
            updates_reserved(updates.take(i as int), *sizes, 0) >= 0,
            offset == fitted(updates_reserved(updates.take(i as int), *sizes, 0)),
        decreases updates.len() - i,
    {
        proof {
            assert(updates.take(i + 1).drop_last() =~= updates.take(i as int));
            assert(updates.take(i + 1).last() == updates[i as int]);
        }
        offset = reserve_scene(
            &scene.raster_tile_updates[i].scene,
            sizes,
            offset,
            Ghost(updates_reserved(updates.take(i as int), *sizes, 0)),
        );
        i = i + 1;
    }
    let ghost from = updates_reserved(updates, *sizes, 0);
    let ghost batches = scene.raster_tile_update_batches@;
    proof {
        assert(updates.take(i as int) =~= updates);
        assert(batches.take(0) =~= Seq::<RasterTileUpdateBatch>::empty());
    }
    let mut k: usize = 0;
    while k < scene.raster_tile_update_batches.len()
        invariant
            batches == scene.raster_tile_update_batches@,
            k <= batches.len(),
            immediate_reserved(batches.take(k as int), *sizes, from) >= 0,
            offset == fitted(immediate_reserved(batches.take(k as int), *sizes, from)),
        decreases batches.len() - k,
    {
        proof {
            assert(batches.take(k + 1).drop_last() =~= batches.take(k as int));
            assert(batches.take(k + 1).last() == batches[k as int]);
        }
        if !scene.raster_tile_update_batches[k].deferred {
            offset = reserve_scene(
                &scene.raster_tile_update_batches[k].scene,
                sizes,
                offset,
                Ghost(immediate_reserved(batches.take(k as int), *sizes, from)),
            );
        }
        k = k + 1;
    }
    proof {
        assert(batches.take(k as int) =~= batches);
    }
    reserve_scene(scene, sizes, offset, Ghost(immediate_reserved(batches, *sizes, from)))
}

fn reserve_deferred(scene: &Scene, sizes: &InstanceSizes) -> (result: usize)
    ensures
        result == fitted(deferred_most(scene.raster_tile_update_batches@, *sizes)),
        deferred_most(scene.raster_tile_update_batches@, *sizes) >= 0,
{
    let ghost batches = scene.raster_tile_update_batches@;
    let mut most: usize = 0;
    let mut k: usize = 0;
    proof {
        assert(batches.take(0) =~= Seq::<RasterTileUpdateBatch>::empty());
    }
    while k < scene.raster_tile_update_batches.len()
        invariant
            batches == scene.raster_tile_update_batches@,
            k <= batches.len(),
            deferred_most(batches.take(k as int), *sizes) >= 0,
            most == fitted(deferred_most(batches.take(k as int), *sizes)),
        decreases batches.len() - k,
    {
        proof {
            assert(batches.take(k + 1).drop_last() =~= batches.take(k as int));
            assert(batches.take(k + 1).last() == batches[k as int]);
        }
        if scene.raster_tile_update_batches[k].deferred {
            let batch = &scene.raster_tile_update_batches[k];
            let drawn: usize = reserve_scene(&batch.scene, sizes, 0, Ghost(0int));
            let needed: usize = if batch.verify {
                reserve_each(
                    drawn,
                    sizes.raster_tile,
                    batch.targets.len(),
                    Ghost(scene_reserved(batch.scene@.lists, *sizes, 0)),
                )
            } else {
                drawn
            };
            proof {
                each_reserved_grows(
                    scene_reserved(batch.scene@.lists, *sizes, 0),
                    sizes.raster_tile as int,
                    batch.targets@.len() as int,
                );
            }
            if needed > most {
                most = needed;
            }
        }
        k = k + 1;
    }
    proof {
        assert(batches.take(k as int) =~= batches);
    }
    most
}

/// The bytes that a buffer needs to hold whatever is drawn at once of a scene, as
/// far as a machine word holds them.
pub fn required_instance_buffer_size(scene: &Scene, sizes: &InstanceSizes) -> (bytes: usize)
    ensures
        bytes == fitted(required(*scene, *sizes)),
        required(*scene, *sizes) >= 0,
    decreases *scene,
{
    let frame: usize = reserve_frame(scene, sizes);
    let deferred: usize = reserve_deferred(scene, sizes);
    let mut compositor: usize = 0;
    let mut i: usize = 0;
    while i < scene.raster_compositor_surfaces.len()
        invariant
            i <= scene.raster_compositor_surfaces@.len(),
            compositor == fitted(compositor_most(*scene, *sizes, i as int)),
            compositor_most(*scene, *sizes, i as int) >= 0,
        decreases scene.raster_compositor_surfaces@.len() - i,
    {
        proof {
            assert(decreases_to!(*scene => scene.raster_compositor_surfaces[i as int].scene));
        }
        let needed: usize = required_instance_buffer_size(
            &scene.raster_compositor_surfaces[i].scene,
            sizes,
        );
        if needed > compositor {
            compositor = needed;
        }
        i = i + 1;
    }
    let most: usize = if frame >= deferred {
        frame
    } else {
        deferred
    };
    if most >= compositor {
        most
    } else {
        compositor
    }
}

/// The size to grow the buffers to before a frame, where they are too small for
/// what it needs: the next power of two, but no more than the largest size.
pub open spec fn grown_size(current: usize, needed: usize) -> Option<usize> {
    if current >= needed {
        None
    } else if needed > MAX_INSTANCE_BUFFER_BYTES {
        Some(MAX_INSTANCE_BUFFER_BYTES)
    } else {
        Some(power_from(1, needed as int) as usize)
    }
}

/// The first of `power`, its double, that doubled and so on that is at least
/// `needed`.
pub open spec fn power_from(power: int, needed: int) -> int
    decreases (if power < needed {
        needed - power
    } else {
        0
    }),
{
    if power >= needed || power <= 0 {
        power
    } else {
        power_from(power * 2, needed)
    }
}

proof fn power_within(power: int, needed: int, exponent: nat)
    requires
        power == vstd::arithmetic::power2::pow2(exponent),
        exponent <= 28,
        needed <= 0x1000_0000,
    ensures
        power_from(power, needed) <= 0x1000_0000,
        power_from(power, needed) >= needed,
    decreases 28 - exponent,
{
    vstd::arithmetic::power2::lemma2_to64();
    vstd::arithmetic::power2::lemma_pow2_pos(exponent);
    if exponent < 28 {
        vstd::arithmetic::power2::lemma_pow2_unfold((exponent + 1) as nat);
        if power < needed {
            power_within(power * 2, needed, exponent + 1);
        } else {
            vstd::arithmetic::power2::lemma_pow2_strictly_increases(exponent, 28);
        }
    }
}

/// The size to grow the buffers to before a frame, where they are too small.
pub fn presized(current: usize, needed: usize) -> (grown: Option<usize>)
    ensures
        grown == grown_size(current, needed),
        grown is Some ==> grown->0 <= MAX_INSTANCE_BUFFER_BYTES && (grown->0 >= needed
            || grown->0 == MAX_INSTANCE_BUFFER_BYTES),
{
    if current >= needed {
        return None;
    }
    if needed > MAX_INSTANCE_BUFFER_BYTES {
        return Some(MAX_INSTANCE_BUFFER_BYTES);
    }
    proof {
        vstd::arithmetic::power2::lemma2_to64();
        power_within(1, needed as int, 0);
    }
    let mut power: usize = 1;
    while power < needed
        invariant
            0 < power,
            needed <= 0x1000_0000,
            power_from(1, needed as int) == power_from(power as int, needed as int),
            power_from(1, needed as int) <= 0x1000_0000,
        decreases (if power < needed {
            needed - power
        } else {
            0
        }),
    {
        power = power * 2;
    }
    Some(power)
}

/// The size to try after encoding a frame has failed: twice as much, until the
/// largest size was tried.
pub fn size_after_failure(current: usize) -> (next: Option<usize>)
    ensures
        next == if current >= MAX_INSTANCE_BUFFER_BYTES {
            None
        } else {
            Some((current * 2) as usize)
        },
{
    if current >= MAX_INSTANCE_BUFFER_BYTES {
        None
    } else {
        Some(current * 2)
    }
}

/// A buffer of the pool.
#[derive(Clone, Copy, Debug, PartialEq, Eq, Structural)]
pub struct InstanceBuffer {
    pub id: u64,
    pub size: usize,
}

/// Buffers of one size that are not in use.
pub struct InstanceBufferPool {
    pub buffer_size: usize,
    pub buffers: Vec<u64>,
}

impl Default for InstanceBufferPool {
    fn default() -> (pool: InstanceBufferPool)
        ensures
            pool.buffer_size == DEFAULT_INSTANCE_BUFFER_BYTES,
            pool.buffers@ == Seq::<u64>::empty(),
    {
        InstanceBufferPool { buffer_size: DEFAULT_INSTANCE_BUFFER_BYTES, buffers: Vec::new() }
    }
}

impl InstanceBufferPool {
    /// Changes the size of the buffers and drops those that are not in use.
    pub fn reset(&mut self, buffer_size: usize)
        ensures
            final(self).buffer_size == buffer_size,
            final(self).buffers@ == Seq::<u64>::empty(),
    {
        self.buffer_size = buffer_size;
        self.buffers.clear();
    }

    /// Takes the buffer that came back last, or asks for a new one under the
    /// identifier given.
    pub fn acquire(&mut self, fresh: u64) -> (buffer: InstanceBuffer)
        ensures
            final(self).buffer_size == old(self).buffer_size,
            buffer.size == old(self).buffer_size,
            old(self).buffers@.len() > 0 ==> buffer.id == old(self).buffers@.last()
                && final(self).buffers@ == old(self).buffers@.drop_last(),
            old(self).buffers@.len() == 0 ==> buffer.id == fresh && final(self).buffers@ == old(self).buffers@,
    {
        match self.buffers.pop() {
            Some(id) => InstanceBuffer { id, size: self.buffer_size },
            None => InstanceBuffer { id: fresh, size: self.buffer_size },
        }
    }

    /// Takes a buffer back, unless the size was changed since it was handed out.
    pub fn release(&mut self, buffer: InstanceBuffer)
        ensures
            final(self).buffer_size == old(self).buffer_size,
            final(self).buffers@ == if buffer.size == old(self).buffer_size {
                old(self).buffers@.push(buffer.id)
            } else {
                old(self).buffers@
            },
    {
        if buffer.size == self.buffer_size {
            self.buffers.push(buffer.id);
        }
    }
}

} // verus!
