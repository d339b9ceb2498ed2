//! The plan of a frame: which tiles are rasterized before it, which are removed,
//! and what is drawn where.
use vstd::prelude::*;

use crate::encode::{EncodeState, Encoder, PassTarget};
use crate::geometry::{Bounds, ContentMask, DeviceSize};
use crate::instance_buffer::InstanceSizes;
use crate::primitive::{PaintOperation, Primitive, PrimitiveLists, RasterTile};
use crate::residency::{
    account_number, cached_raster_texture_key, side, CachedRasterTextureKey, PlacedTarget,
    PreparedRasterBatchTexture, RasterResidency, ResidencyModel,
};
use crate::scene::{
    finished_lists, finishing_is_determined, RasterTileUpdate, RasterTileUpdateBatch,
    RasterTileUpdateTarget, Scene, SceneModel,
};

verus! {

/// The place of a target in the texture of its batch, in device pixels.
#[derive(Clone, Copy, Debug, PartialEq, Eq, Structural)]
pub struct TargetPlace {
    pub x: i32,
    pub y: i32,
}

/// The measures of a batch in whole device pixels: the rectangle around its
/// targets, rounded up, and the place of each target in it.
pub struct BatchMeasures {
    pub width: i32,
    pub height: i32,
    pub places: Vec<TargetPlace>,
}

/// The rectangle around the first `n` targets.
pub open spec fn around_targets(targets: Seq<RasterTileUpdateTarget>, n: int) -> Bounds
    decreases n,
{
    if n <= 1 {
        targets[0].source_bounds
    } else {
        around_targets(targets, n - 1).spec_union(targets[n - 1].source_bounds)
    }
}

/// The rectangle around the targets of a batch, if it has any.
pub fn batch_source_bounds(targets: &Vec<RasterTileUpdateTarget>) -> (bounds: Option<Bounds>)
    ensures
        bounds is Some <==> targets@.len() > 0,
        bounds is Some ==> bounds->0 == around_targets(targets@, targets@.len() as int),
{
    if targets.len() == 0 {
        return None;
    }
    let mut bounds = targets[0].source_bounds;
    let mut i: usize = 1;
    while i < targets.len()
        invariant
            1 <= i <= targets@.len(),
            bounds == around_targets(targets@, i as int),
        decreases targets@.len() - i,
    {
        bounds = bounds.union(targets[i].source_bounds);
        i = i + 1;
    }
    Some(bounds)
}

/// How far to the right, or down, the first `n` targets reach.
pub open spec fn reach(places: Seq<TargetPlace>, length: i32, horizontal: bool, n: int) -> int
    decreases n,
{
    let far = (if horizontal {
        places[n - 1].x
    } else {
        places[n - 1].y
    }) + length;
    if n <= 0 {
        0
    } else if n == 1 {
        far
    } else {
        let before = reach(places, length, horizontal, n - 1);
        if far > before {
            far
        } else {
            before
        }
    }
}

/// A side of the texture of a batch: the rectangle around its targets with a gutter
/// on both sides, and all of every target.
pub open spec fn batch_side(
    measures: BatchMeasures,
    texture_size: DeviceSize,
    gutter: i32,
    horizontal: bool,
) -> int {
    let length = if horizontal {
        texture_size.width
    } else {
        texture_size.height
    };
    let extent = (if horizontal {
        measures.width
    } else {
        measures.height
    }) + 2 * side(gutter);
    let far = reach(measures.places@, length, horizontal, measures.places@.len() as int);
    if extent > far {
        extent
    } else {
        far
    }
}

/// The measures fit the targets, and all sums fit into 32 bits.
pub open spec fn measurable(batch: RasterTileUpdateBatch, measures: BatchMeasures) -> bool {
    &&& measures.places@.len() == batch.targets@.len()
    &&& batch.targets@.len() <= u32::MAX
    &&& forall|i: int|
        0 <= i < measures.places@.len() ==> {
            let place = #[trigger] measures.places@[i];
            &&& i32::MIN <= place.x + batch.texture_size.width <= i32::MAX
            &&& i32::MIN <= place.y + batch.texture_size.height <= i32::MAX
        }
    &&& measures.width + 2 * side(batch.gutter) <= i32::MAX
    &&& measures.height + 2 * side(batch.gutter) <= i32::MAX
}

fn measure_side(
    batch: &RasterTileUpdateBatch,
    measures: &BatchMeasures,
    horizontal: bool,
) -> (length: i32)
    requires
        measurable(*batch, *measures),
    ensures
        length as int == batch_side(*measures, batch.texture_size, batch.gutter, horizontal),
{
    let tile: i32 = if horizontal {
        batch.texture_size.width
    } else {
        batch.texture_size.height
    };
    let gutter: i64 = if batch.gutter > 0 {
        batch.gutter as i64
    } else {
        0
    };
    let around: i32 = if horizontal {
        measures.width
    } else {
        measures.height
    };
    let extent: i64 = around as i64 + 2 * gutter;
    let mut far: i64 = 0;
    let mut i: usize = 0;
    while i < measures.places.len()
        invariant
            i <= measures.places@.len(),
            measurable(*batch, *measures),
            tile == if horizontal {
                batch.texture_size.width
            } else {
                batch.texture_size.height
            },
            far as int == reach(measures.places@, tile, horizontal, i as int),
            i32::MIN <= far <= i32::MAX,
        decreases measures.places@.len() - i,
    {
        let place = measures.places[i];
        let edge: i64 = if horizontal {
            place.x as i64 + tile as i64
        } else {
            place.y as i64 + tile as i64
        };
        if i == 0 || edge > far {
            far = edge;
        }
        i = i + 1;
    }
    if extent > far {
        extent as i32
    } else {
        far as i32
    }
}

/// The size of the texture of a batch.
pub open spec fn batch_size(batch: RasterTileUpdateBatch, measures: BatchMeasures) -> DeviceSize {
    DeviceSize {
        width: batch_side(measures, batch.texture_size, batch.gutter, true) as i32,
        height: batch_side(measures, batch.texture_size, batch.gutter, false) as i32,
    }
}

/// The targets of a batch with their places.
pub open spec fn placed_targets(
    targets: Seq<RasterTileUpdateTarget>,
    places: Seq<TargetPlace>,
) -> Seq<PlacedTarget> {
    Seq::new(
        targets.len(),
        |i: int|
            PlacedTarget {
                key: targets[i].key,
                revision: targets[i].revision,
                source_x: places[i].x,
                source_y: places[i].y,
            },
    )
}

fn place_targets(targets: &Vec<RasterTileUpdateTarget>, places: &Vec<TargetPlace>) -> (placed: Vec<
    PlacedTarget,
>)
    requires
        targets@.len() == places@.len(),
    ensures
        placed@ == placed_targets(targets@, places@),
{
    let mut placed: Vec<PlacedTarget> = Vec::new();
    let mut i: usize = 0;
    while i < targets.len()
        invariant
            targets@.len() == places@.len(),
            i <= targets@.len(),
            placed@ =~= placed_targets(targets@, places@).take(i as int),
        decreases targets@.len() - i,
    {
        placed.push(
            PlacedTarget {
                key: targets[i].key,
                revision: targets[i].revision,
                source_x: places[i].x,
                source_y: places[i].y,
            },
        );
        i = i + 1;
    }
    proof {
        assert(placed_targets(targets@, places@).take(i as int) =~= placed_targets(
            targets@,
            places@,
        ));
    }
    placed
}

/// The tile that stands for a target when its batch is compared.
pub open spec fn comparison_tile(
    batch: RasterTileUpdateBatch,
    target: RasterTileUpdateTarget,
) -> RasterTile {
    RasterTile {
        order: 0,
        bounds: target.source_bounds,
        content_mask: ContentMask { bounds: target.source_bounds },
        cache_id: batch.cache.identity.id,
        key: target.key.number,
        revision: target.revision.number,
        gutter: side(batch.gutter) as u32,
    }
}

/// What is painted to compare a batch: the tile of every target.
pub open spec fn comparison_paint(batch: RasterTileUpdateBatch) -> Seq<PaintOperation> {
    Seq::new(
        batch.targets@.len(),
        |i: int|
            PaintOperation::Primitive(
                Primitive::RasterTile(comparison_tile(batch, batch.targets@[i])),
            ),
    )
}

/// The primitives that are drawn to compare a batch.
pub open spec fn comparison_lists(batch: RasterTileUpdateBatch) -> PrimitiveLists {
    finished_lists(SceneModel::empty().replayed(comparison_paint(batch)).lists)
}

/// The scene that is drawn to compare a batch: its tiles as they will be shown.
pub fn comparison_scene(batch: &RasterTileUpdateBatch) -> (scene: Scene)
    requires
        batch.targets@.len() <= u32::MAX,
    ensures
        scene@.lists == comparison_lists(*batch),
{
    let ghost paint = comparison_paint(*batch);
    let mut scene = Scene::new();
    let mut i: usize = 0;
    proof {
        assert(paint.take(0) =~= Seq::<PaintOperation>::empty());
    }
    while i < batch.targets.len()
        invariant
            i <= batch.targets@.len() <= u32::MAX,
            paint == comparison_paint(*batch),
            scene@ == SceneModel::empty().replayed(paint.take(i as int)),
            scene@.wf(),
            scene@.bounds.len() <= i,
        decreases batch.targets@.len() - i,
    {
        let target = batch.targets[i];
        let gutter: u32 = if batch.gutter > 0 {
            batch.gutter as u32
        } else {
            0
        };
        let tile = RasterTile {
            order: 0,
            bounds: target.source_bounds,
            content_mask: ContentMask { bounds: target.source_bounds },
            cache_id: batch.cache.identity.id,
            key: target.key.value(),
            revision: target.revision.value(),
            gutter,
        };
        proof {
            assert(paint.take(i + 1).drop_last() =~= paint.take(i as int));
            assert(paint.take(i + 1).last() == PaintOperation::Primitive(
                Primitive::RasterTile(tile),
            ));
        }
        scene.insert_primitive(Primitive::RasterTile(tile));
        i = i + 1;
    }
    proof {
        assert(paint.take(i as int) =~= paint);
    }
    let ghost painted = scene@;
    scene.finish();
    proof {
        finishing_is_determined(painted, scene@);
    }
    scene
}

/// The key of a tile that is drawn.
pub open spec fn drawn_key(tile: RasterTile) -> CachedRasterTextureKey {
    CachedRasterTextureKey {
        cache_id: tile.cache_id,
        tile_key: tile.key,
        revision: tile.revision,
    }
}

/// The keys of the tiles that are drawn.
pub open spec fn drawn_keys(tiles: Seq<RasterTile>) -> Seq<CachedRasterTextureKey> {
    Seq::new(tiles.len(), |i: int| drawn_key(tiles[i]))
}

/// The key of a tile update.
pub open spec fn update_key(update: RasterTileUpdate) -> CachedRasterTextureKey {
    CachedRasterTextureKey {
        cache_id: update.cache.identity.id,
        tile_key: update.key.number,
        revision: update.revision.number,
    }
}

/// The keys of tile updates.
pub open spec fn update_keys(updates: Seq<RasterTileUpdate>) -> Seq<CachedRasterTextureKey> {
    Seq::new(updates.len(), |i: int| update_key(updates[i]))
}

/// The keys of the targets of a batch.
pub open spec fn batch_keys(batch: RasterTileUpdateBatch) -> Seq<CachedRasterTextureKey> {
    Seq::new(
        batch.targets@.len(),
        |i: int|
            CachedRasterTextureKey {
                cache_id: batch.cache.identity.id,
                tile_key: batch.targets@[i].key.number,
                revision: batch.targets@[i].revision.number,
            },
    )
}

/// The keys of the tiles that the scenes of batches draw.
pub open spec fn batch_drawn_keys(batches: Seq<RasterTileUpdateBatch>) -> Seq<
    CachedRasterTextureKey,
>
    decreases batches.len(),
{
    if batches.len() == 0 {
        Seq::empty()
    } else {
        batch_drawn_keys(batches.drop_last()) + drawn_keys(
            batches.last().scene@.lists.raster_tiles,
        )
    }
}

/// The keys of the targets of batches.
pub open spec fn batch_target_keys(batches: Seq<RasterTileUpdateBatch>) -> Seq<
    CachedRasterTextureKey,
>
    decreases batches.len(),
{
    if batches.len() == 0 {
        Seq::empty()
    } else {
        batch_target_keys(batches.drop_last()) + batch_keys(batches.last())
    }
}

/// The tiles that a frame needs: those that it draws, those that its batches draw,
/// and those that it rasterizes.
pub open spec fn protected_keys(scene: Scene) -> Seq<CachedRasterTextureKey> {
    drawn_keys(scene.raster_tiles@) + batch_drawn_keys(scene.raster_tile_update_batches@)
        + update_keys(scene.raster_tile_updates@) + batch_target_keys(
        scene.raster_tile_update_batches@,
    )
}

fn push_drawn(keys: &mut Vec<CachedRasterTextureKey>, tiles: &Vec<RasterTile>)
    ensures
        final(keys)@ == old(keys)@ + drawn_keys(tiles@),
{
    let mut i: usize = 0;
    while i < tiles.len()
        invariant
            i <= tiles@.len(),
            keys@ =~= old(keys)@ + drawn_keys(tiles@).take(i as int),
        decreases tiles@.len() - i,
    {
        keys.push(cached_raster_texture_key(tiles[i].cache_id, tiles[i].key, tiles[i].revision));
        i = i + 1;
    }
    proof {
        assert(drawn_keys(tiles@).take(i as int) =~= drawn_keys(tiles@));
    }
}

fn push_targets(keys: &mut Vec<CachedRasterTextureKey>, batch: &RasterTileUpdateBatch)
    ensures
        final(keys)@ == old(keys)@ + batch_keys(*batch),
{
    let mut i: usize = 0;
    while i < batch.targets.len()
        invariant
            i <= batch.targets@.len(),
            keys@ =~= old(keys)@ + batch_keys(*batch).take(i as int),
        decreases batch.targets@.len() - i,
    {
        keys.push(
            cached_raster_texture_key(
                batch.cache.identity.id,
                batch.targets[i].key.value(),
                batch.targets[i].revision.value(),
            ),
        );
        i = i + 1;
    }
    proof {
        assert(batch_keys(*batch).take(i as int) =~= batch_keys(*batch));
    }
}

/// The tiles that a frame needs.
pub fn protected_tiles(scene: &Scene) -> (keys: Vec<CachedRasterTextureKey>)
    ensures
        keys@ == protected_keys(*scene),
{
    let ghost batches = scene.raster_tile_update_batches@;
    let ghost updates = scene.raster_tile_updates@;
    let mut keys: Vec<CachedRasterTextureKey> = Vec::new();
    push_drawn(&mut keys, &scene.raster_tiles);
    let ghost first = drawn_keys(scene.raster_tiles@);
    proof {
        assert(keys@ =~= first);
    }
    let mut i: usize = 0;
    while i < scene.raster_tile_update_batches.len()
        invariant
            batches == scene.raster_tile_update_batches@,
            i <= batches.len(),
            keys@ =~= first + batch_drawn_keys(batches.take(i as int)),
        decreases batches.len() - i,
    {
        proof {
            assert(batches.take(i + 1).drop_last() =~= batches.take(i as int));
            assert(batches.take(i + 1).last() == batches[i as int]);
        }
        push_drawn(&mut keys, &scene.raster_tile_update_batches[i].scene.raster_tiles);
        i = i + 1;
    }
    let ghost second = first + batch_drawn_keys(batches);
    proof {
        assert(batches.take(i as int) =~= batches);
    }
    let mut j: usize = 0;
    while j < scene.raster_tile_updates.len()
        invariant
            updates == scene.raster_tile_updates@,
            j <= updates.len(),
            keys@ =~= second + update_keys(updates).take(j as int),
        decreases updates.len() - j,
    {
        let update = &scene.raster_tile_updates[j];
        keys.push(
            cached_raster_texture_key(
                update.cache.identity.id,
                update.key.value(),
                update.revision.value(),
            ),
        );
        j = j + 1;
    }
    let ghost third = second + update_keys(updates);
    proof {
        assert(update_keys(updates).take(j as int) =~= update_keys(updates));
    }
    let mut k: usize = 0;
    while k < scene.raster_tile_update_batches.len()
        invariant
            batches == scene.raster_tile_update_batches@,
            k <= batches.len(),
            keys@ =~= third + batch_target_keys(batches.take(k as int)),
        decreases batches.len() - k,
    {
        proof {
            assert(batches.take(k + 1).drop_last() =~= batches.take(k as int));
            assert(batches.take(k + 1).last() == batches[k as int]);
        }
        push_targets(&mut keys, &scene.raster_tile_update_batches[k]);
        k = k + 1;
    }
    proof {
        assert(batches.take(k as int) =~= batches);
    }
    keys
}

/// How far the plan of a frame has come.
pub struct PlanState {
    /// The tiles on the device.
    pub residency: ResidencyModel,
    /// What is encoded for the frame.
    pub frame: EncodeState,
}

/// What does not change while a frame is planned.
pub struct PlanContext {
    pub protected: Seq<CachedRasterTextureKey>,
    pub sizes: InstanceSizes,
    pub capacity: usize,
    pub deferred_capacity: usize,
}

impl PlanState {
    /// With a tile update: a texture is prepared for it and its scene encoded, or it
    /// is skipped where there is no texture to be had.
    pub open spec fn updated(
        self,
        context: PlanContext,
        index: int,
        update: RasterTileUpdate,
    ) -> PlanState {
        if self.frame.failed is Some {
            self
        } else {
            let (residency, texture) = self.residency.prepared(
                update.cache.identity,
                update_key(update),
                update.texture_size,
                update.gutter,
                context.protected,
            );
            match texture {
                None => PlanState { residency, ..self },
                Some(texture) => PlanState {
                    residency,
                    frame: self.frame.begun(
                        PassTarget::Tile {
                            update: index as usize,
                            allocation: texture.allocation,
                            fresh: texture.fresh,
                        },
                    ).scene_placed(
                        context.capacity,
                        update.scene@.lists,
                        context.sizes,
                        residency.textures,
                        true,
                    ),
                },
            }
        }
    }

    /// With the first `n` tile updates.
    pub open spec fn all_updated(
        self,
        context: PlanContext,
        updates: Seq<RasterTileUpdate>,
        n: int,
    ) -> PlanState
        decreases n,
    {
        if n <= 0 {
            self
        } else {
            self.all_updated(context, updates, n - 1).updated(context, n - 1, updates[n - 1])
        }
    }

    /// With the scene of a batch encoded after its texture was prepared: with the
    /// frame, or in a buffer of its own together with what it is compared with.
    pub open spec fn batch_encoded(
        self,
        context: PlanContext,
        index: int,
        batch: RasterTileUpdateBatch,
        size: DeviceSize,
        allocation: u64,
    ) -> PlanState {
        let textures = self.residency.textures;
        let target = PassTarget::Batch {
            batch: index as usize,
            allocation,
            size,
            deferred: batch.deferred,
        };
        if !batch.deferred {
            PlanState {
                frame: self.frame.begun(target).scene_placed(
                    context.capacity,
                    batch.scene@.lists,
                    context.sizes,
                    textures,
                    true,
                ),
                ..self
            }
        } else {
            let drawn = EncodeState { offset: 0, ..self.frame }.begun(target).scene_placed(
                context.deferred_capacity,
                batch.scene@.lists,
                context.sizes,
                textures,
                true,
            );
            let compared = if batch.verify && drawn.failed is None {
                drawn.begun(
                    PassTarget::Comparison {
                        batch: index as usize,
                        account: account_number(
                            self.residency.namespaces,
                            batch.cache.identity.id,
                        ),
                    },
                ).scene_placed(
                    context.deferred_capacity,
                    comparison_lists(batch),
                    context.sizes,
                    textures,
                    true,
                )
            } else {
                drawn
            };
            PlanState { frame: EncodeState { offset: self.frame.offset, ..compared }, ..self }
        }
    }

    /// With a batch: skipped where it has no targets, no pixels or no texture to be
    /// had, and where all of its tiles are there.
    pub open spec fn batch_updated(
        self,
        context: PlanContext,
        index: int,
        batch: RasterTileUpdateBatch,
        measures: BatchMeasures,
    ) -> PlanState {
        let size = batch_size(batch, measures);
        if self.frame.failed is Some || batch.targets@.len() == 0 || size.width <= 0 || size.height
            <= 0 {
            self
        } else {
            let (residency, prepared) = self.residency.batch_prepared(
                batch.cache.identity,
                batch.texture_size,
                batch.gutter,
                placed_targets(batch.targets@, measures.places@),
                size,
                context.protected,
            );
            let next = PlanState { residency, ..self };
            match prepared {
                Some(PreparedRasterBatchTexture::Allocated(allocation)) => next.batch_encoded(
                    context,
                    index,
                    batch,
                    size,
                    allocation,
                ),
                _ => next,
            }
        }
    }

    /// With the first `n` batches.
    pub open spec fn all_batches_updated(
        self,
        context: PlanContext,
        batches: Seq<RasterTileUpdateBatch>,
        measures: Seq<BatchMeasures>,
        n: int,
    ) -> PlanState
        decreases n,
    {
        if n <= 0 {
            self
        } else {
            self.all_batches_updated(context, batches, measures, n - 1).batch_updated(
                context,
                n - 1,
                batches[n - 1],
                measures[n - 1],
            )
        }
    }

    /// With the caches that the frame has touched trimmed to their soft limits, and
    /// the scene encoded.
    pub open spec fn completed(
        self,
        context: PlanContext,
        scene: Scene,
        root_path_texture: bool,
    ) -> PlanState {
        if self.frame.failed is Some {
            self
        } else {
            let limits = soft_limits(scene);
            let residency = trimmed_to_soft_limits(
                self.residency,
                limits,
                context.protected,
                limits.len() as int,
            );
            PlanState {
                residency,
                frame: self.frame.begun(PassTarget::Drawable).scene_placed(
                    context.capacity,
                    scene@.lists,
                    context.sizes,
                    residency.textures,
                    root_path_texture,
                ),
            }
        }
    }

    /// The plan of a frame.
    pub open spec fn planned(
        self,
        context: PlanContext,
        scene: Scene,
        measures: Seq<BatchMeasures>,
        root_path_texture: bool,
    ) -> PlanState {
        let updates = scene.raster_tile_updates@;
        let batches = scene.raster_tile_update_batches@;
        self.all_updated(context, updates, updates.len() as int).all_batches_updated(
            context,
            batches,
            measures,
            batches.len() as int,
        ).completed(context, scene, root_path_texture)
    }
}

/// A cache with the soft limit that a frame names for it.
#[derive(Clone, Copy, Debug, PartialEq, Eq, Structural)]
pub struct SoftLimit {
    pub cache_id: u64,
    pub bytes: usize,
}

/// The caches that a frame has touched, with their soft limits.
pub open spec fn soft_limits(scene: Scene) -> Seq<SoftLimit> {
    Seq::new(
        scene.raster_tile_updates@.len(),
        |i: int|
            SoftLimit {
                cache_id: scene.raster_tile_updates@[i].cache.identity.id,
                bytes: scene.raster_tile_updates@[i].cache.identity.config.soft(),
            },
    ) + Seq::new(
        scene.raster_tile_update_batches@.len(),
        |i: int|
            SoftLimit {
                cache_id: scene.raster_tile_update_batches@[i].cache.identity.id,
                bytes: scene.raster_tile_update_batches@[i].cache.identity.config.soft(),
            },
    )
}

/// Whether a cache is named again further on.
pub open spec fn named_later(limits: Seq<SoftLimit>, k: int) -> bool {
    exists|j: int| k < j < limits.len() && (#[trigger] limits[j]).cache_id == limits[k].cache_id
}

/// The tiles after the caches among the first `n` were trimmed, each by the limit
/// that is named for it last.
pub open spec fn trimmed_to_soft_limits(
    model: ResidencyModel,
    limits: Seq<SoftLimit>,
    protected: Seq<CachedRasterTextureKey>,
    n: int,
) -> ResidencyModel
    decreases n,
{
    if n <= 0 {
        model
    } else {
        let before = trimmed_to_soft_limits(model, limits, protected, n - 1);
        if named_later(limits, n - 1) {
            before
        } else {
            before.trimmed(limits[n - 1].cache_id, 0, limits[n - 1].bytes, protected)
        }
    }
}

fn collect_soft_limits(scene: &Scene) -> (limits: Vec<SoftLimit>)
    ensures
        limits@ == soft_limits(*scene),
{
    let mut limits: Vec<SoftLimit> = Vec::new();
    let ghost all = soft_limits(*scene);
    let ghost updates = scene.raster_tile_updates@.len();
    let mut i: usize = 0;
    while i < scene.raster_tile_updates.len()
        invariant
            i <= scene.raster_tile_updates@.len(),
            all == soft_limits(*scene),
            limits@ =~= all.take(i as int),
        decreases scene.raster_tile_updates@.len() - i,
    {
        let cache = scene.raster_tile_updates[i].cache.identity;
        limits.push(SoftLimit { cache_id: cache.id, bytes: cache.config.soft_limit_bytes() });
        i = i + 1;
    }
    let mut j: usize = 0;
    while j < scene.raster_tile_update_batches.len()
        invariant
            j <= scene.raster_tile_update_batches@.len(),
            updates == scene.raster_tile_updates@.len(),
            all == soft_limits(*scene),
            limits@ =~= all.take(updates + j),
        decreases scene.raster_tile_update_batches@.len() - j,
    {
        let cache = scene.raster_tile_update_batches[j].cache.identity;
        limits.push(SoftLimit { cache_id: cache.id, bytes: cache.config.soft_limit_bytes() });
        j = j + 1;
    }
    proof {
        assert(all.take(updates + j) =~= all);
    }
    limits
}

fn is_named_later(limits: &Vec<SoftLimit>, k: usize) -> (result: bool)
    requires
        k < limits@.len(),
    ensures
        result == named_later(limits@, k as int),
{
    let count: usize = limits.len();
    let mut j: usize = k + 1;
    while j < count
        invariant
            k < j <= limits@.len(),
            count == limits@.len(),
            forall|x: int|
                k < x < j ==> (#[trigger] limits@[x]).cache_id != limits@[k as int].cache_id,
        decreases limits@.len() - j,
    {
        if limits[j].cache_id == limits[k].cache_id {
            assert(limits@[j as int].cache_id == limits@[k as int].cache_id);
            return true;
        }
        j = j + 1;
    }
    false
}

/// Trims the caches that a frame has touched to their soft limits. Tiles that the
/// frame needs stay.
pub fn trim_to_soft_limits(
    residency: &mut RasterResidency,
    scene: &Scene,
    protected: &Vec<CachedRasterTextureKey>,
)
    ensures
        final(residency)@ == trimmed_to_soft_limits(
            old(residency)@,
            soft_limits(*scene),
            protected@,
            soft_limits(*scene).len() as int,
        ),
        final(residency)@.next_allocation == old(residency)@.next_allocation,
{
    let limits = collect_soft_limits(scene);
    let mut i: usize = 0;
    while i < limits.len()
        invariant
            i <= limits@.len(),
            residency@.next_allocation == old(residency)@.next_allocation,
            residency@ == trimmed_to_soft_limits(
                old(residency)@,
                limits@,
                protected@,
                i as int,
            ),
        decreases limits@.len() - i,
    {
        if !is_named_later(&limits, i) {
            proof {
                crate::residency::trimming_keeps_counters(
                    residency@,
                    limits@[i as int].cache_id,
                    0,
                    limits@[i as int].bytes,
                    protected@,
                );
            }
            residency.trim(limits[i].cache_id, 0, limits[i].bytes, protected);
        }
        i = i + 1;
    }
}

/// Allocations that are numbered while a frame is planned.
pub open spec fn allocations_left(model: ResidencyModel, more: nat) -> bool {
    model.next_allocation + more <= u64::MAX
}

/// Preparing a tile numbers at most one allocation.
proof fn preparing_numbers_one(
    model: ResidencyModel,
    cache: crate::raster_cache::RasterCacheIdentity,
    key: CachedRasterTextureKey,
    size: DeviceSize,
    gutter: i32,
    protected: Seq<CachedRasterTextureKey>,
)
    requires
        model.next_allocation < u64::MAX,
    ensures
        model.prepared(cache, key, size, gutter, protected).0.next_allocation
            <= model.next_allocation + 1,
{
    crate::residency::trimming_keeps_counters(
        model.removed(key, false),
        cache.id,
        crate::residency::texture_bytes(size),
        cache.config.hard(),
        protected,
    );
}

proof fn scanning_numbers_none(
    model: ResidencyModel,
    cache: crate::raster_cache::RasterCacheIdentity,
    tile_size: DeviceSize,
    gutter: i32,
    targets: Seq<PlacedTarget>,
    texture_size: DeviceSize,
)
    ensures
        model.scanned(cache, tile_size, gutter, targets, texture_size).model.next_allocation
            == model.next_allocation,
    decreases targets.len(),
{
    if targets.len() > 0 {
        scanning_numbers_none(
            model,
            cache,
            tile_size,
            gutter,
            targets.drop_last(),
            texture_size,
        );
    }
}

/// Preparing a batch numbers at most one allocation.
proof fn batch_preparing_numbers_one(
    model: ResidencyModel,
    cache: crate::raster_cache::RasterCacheIdentity,
    tile_size: DeviceSize,
    gutter: i32,
    targets: Seq<PlacedTarget>,
    texture_size: DeviceSize,
    protected: Seq<CachedRasterTextureKey>,
)
    requires
        model.next_allocation < u64::MAX,
    ensures
        model.batch_prepared(
            cache,
            tile_size,
            gutter,
            targets,
            texture_size,
            protected,
        ).0.next_allocation <= model.next_allocation + 1,
{
    scanning_numbers_none(model, cache, tile_size, gutter, targets, texture_size);
    crate::residency::trimming_keeps_counters(
        model.scanned(cache, tile_size, gutter, targets, texture_size).model,
        cache.id,
        crate::residency::texture_bytes(texture_size),
        cache.config.hard(),
        protected,
    );
}

fn plan_batch(
    residency: &mut RasterResidency,
    encoder: &mut Encoder,
    index: usize,
    batch: &RasterTileUpdateBatch,
    measures: &BatchMeasures,
    protected: &Vec<CachedRasterTextureKey>,
    sizes: &InstanceSizes,
    deferred_capacity: usize,
)
    requires
        old(encoder).wf(),
        deferred_capacity <= usize::MAX - 255,
        old(residency)@.next_allocation < u64::MAX,
        measurable(*batch, *measures),
    ensures
        final(encoder).wf(),
        final(encoder).capacity == old(encoder).capacity,
        final(residency)@.next_allocation <= old(residency)@.next_allocation + 1,
        (PlanState { residency: final(residency)@, frame: final(encoder)@ }) == (PlanState {
            residency: old(residency)@,
            frame: old(encoder)@,
        }).batch_updated(
            PlanContext {
                protected: protected@,
                sizes: *sizes,
                capacity: old(encoder).capacity,
                deferred_capacity,
            },
            index as int,
            *batch,
            *measures,
        ),
{
    if encoder.failed.is_some() || batch.targets.len() == 0 {
        return;
    }
    let size = DeviceSize {
        width: measure_side(batch, measures, true),
        height: measure_side(batch, measures, false),
    };
    if size.width <= 0 || size.height <= 0 {
        return;
    }
    let targets = place_targets(&batch.targets, &measures.places);
    proof {
        batch_preparing_numbers_one(
            residency@,
            batch.cache.identity,
            batch.texture_size,
            batch.gutter,
            targets@,
            size,
            protected@,
        );
    }
    let prepared = residency.prepare_raster_batch_texture(
        batch.cache.identity,
        batch.texture_size,
        batch.gutter,
        &targets,
        size,
        protected,
    );
    let allocation: u64 = match prepared {
        Some(PreparedRasterBatchTexture::Allocated(allocation)) => allocation,
        _ => {
            return;
        },
    };
    let target = PassTarget::Batch { batch: index, allocation, size, deferred: batch.deferred };
    if !batch.deferred {
        encoder.begin(target);
        encoder.encode_scene(&batch.scene, sizes, residency, true);
        return;
    }
    let offset: usize = encoder.offset;
    let capacity: usize = encoder.capacity;
    encoder.offset = 0;
    encoder.capacity = deferred_capacity;
    encoder.begin(target);
    let drawn = encoder.encode_scene(&batch.scene, sizes, residency, true);
    if drawn && batch.verify {
        let candidate = comparison_scene(batch);
        let account: u64 = residency.account_number(batch.cache.id());
        encoder.begin(PassTarget::Comparison { batch: index, account });
        encoder.encode_scene(&candidate, sizes, residency, true);
    }
    encoder.offset = offset;
    encoder.capacity = capacity;
}

/// Plans a frame. Textures are prepared for the tile updates and the batches of the
/// scene, and their scenes encoded; what cannot be had is skipped. The caches they
/// belong to are trimmed to their soft limits, and the scene itself is encoded
/// last. Ends at the first draw that does not fit its buffer. Returns whether
/// everything was encoded.
pub fn draw_primitives(
    residency: &mut RasterResidency,
    encoder: &mut Encoder,
    scene: &Scene,
    measures: &Vec<BatchMeasures>,
    sizes: &InstanceSizes,
    deferred_capacity: usize,
    root_path_texture: bool,
) -> (encoded: bool)
    requires
        old(encoder).wf(),
        deferred_capacity <= usize::MAX - 255,
        allocations_left(
            old(residency)@,
            scene.raster_tile_updates@.len() + scene.raster_tile_update_batches@.len(),
        ),
        measures@.len() == scene.raster_tile_update_batches@.len(),
        forall|i: int|
            0 <= i < measures@.len() ==> measurable(
                scene.raster_tile_update_batches@[i],
                #[trigger] measures@[i],
            ),
    ensures
        final(encoder).wf(),
        final(encoder).capacity == old(encoder).capacity,
        (PlanState { residency: final(residency)@, frame: final(encoder)@ }) == (PlanState {
            residency: old(residency)@,
            frame: old(encoder)@,
        }).planned(
            PlanContext {
                protected: protected_keys(*scene),
                sizes: *sizes,
                capacity: old(encoder).capacity,
                deferred_capacity,
            },
            *scene,
            measures@,
            root_path_texture,
        ),
        encoded == final(encoder)@.failed is None,
        final(residency)@.next_allocation <= old(residency)@.next_allocation
            + scene.raster_tile_updates@.len() + scene.raster_tile_update_batches@.len(),
{
    let protected = protected_tiles(scene);
    let ghost updates = scene.raster_tile_updates@;
    let ghost batches = scene.raster_tile_update_batches@;
    let ghost context = PlanContext {
        protected: protected@,
        sizes: *sizes,
        capacity: encoder.capacity,
        deferred_capacity,
    };
    let ghost begun = PlanState { residency: residency@, frame: encoder@ };
    let mut i: usize = 0;
    while i < scene.raster_tile_updates.len()
        invariant
            updates == scene.raster_tile_updates@,
            i <= updates.len(),
            encoder.wf(),
            encoder.capacity == context.capacity,
            context.protected == protected@,
            context.sizes == *sizes,
            residency@.next_allocation <= begun.residency.next_allocation + i,
            allocations_left(begun.residency, updates.len() + batches.len()),
            (PlanState { residency: residency@, frame: encoder@ }) == begun.all_updated(
                context,
                updates,
                i as int,
            ),
        decreases updates.len() - i,
    {
        let update = &scene.raster_tile_updates[i];
        if encoder.failed.is_none() {
            proof {
                preparing_numbers_one(
                    residency@,
                    update.cache.identity,
                    update_key(*update),
                    update.texture_size,
                    update.gutter,
                    protected@,
                );
            }
            if let Some(texture) = residency.prepare_raster_texture_fields(
                update.cache.identity,
                update.key,
                update.revision,
                update.texture_size,
                update.gutter,
                &protected,
            ) {
                encoder.begin(
                    PassTarget::Tile {
                        update: i,
                        allocation: texture.allocation,
                        fresh: texture.fresh,
                    },
                );
                encoder.encode_scene(&update.scene, sizes, residency, true);
            }
        }
        i = i + 1;
    }
    let ghost updated = begun.all_updated(context, updates, updates.len() as int);
    let mut k: usize = 0;
    while k < scene.raster_tile_update_batches.len()
        invariant
            batches == scene.raster_tile_update_batches@,
            k <= batches.len(),
            measures@.len() == batches.len(),
            encoder.wf(),
            encoder.capacity == context.capacity,
            context.protected == protected@,
            context.sizes == *sizes,
            context.deferred_capacity == deferred_capacity,
            deferred_capacity <= usize::MAX - 255,
            residency@.next_allocation <= begun.residency.next_allocation + updates.len() + k,
            allocations_left(begun.residency, updates.len() + batches.len()),
            forall|j: int|
                0 <= j < measures@.len() ==> measurable(batches[j], #[trigger] measures@[j]),
            (PlanState { residency: residency@, frame: encoder@ }) == updated.all_batches_updated(
                context,
                batches,
                measures@,
                k as int,
            ),
        decreases batches.len() - k,
    {
        proof {
            assert(measurable(batches[k as int], measures@[k as int]));
        }
        plan_batch(
            residency,
            encoder,
            k,
            &scene.raster_tile_update_batches[k],
            &measures[k],
            &protected,
            sizes,
            deferred_capacity,
        );
        k = k + 1;
    }
    if encoder.failed.is_none() {
        trim_to_soft_limits(residency, scene, &protected);
        encoder.begin(PassTarget::Drawable);
        encoder.encode_scene(scene, sizes, residency, root_path_texture);
    }
    encoder.failed.is_none()
}

} // verus!
