//! Elements that show raster tiles, rasterize them, or paint onto a surface of the
//! compositor.
use vstd::prelude::*;

use crate::compositor_transform::RasterCompositorTransform;
use crate::geometry::{Bounds, ContentMask, DeviceSize, Rectangle};
use crate::primitive::{PaintOperation, Primitive, RasterTile};
use crate::raster_cache::{
    one_handle_less, one_more_handle, RasterCacheOwners, RasterTileHit, RasterTileMiss,
};
use crate::scene::{
    orders_suffice_before, scene_released, RasterCompositorSurface, RasterTileUpdate,
    RasterTileUpdateBatch, RasterTileUpdateTarget, Scene, SceneModel,
};

verus! {

/// An element that shows a resident tile.
#[derive(Debug)]
pub struct CachedRasterTile {
    pub hit: RasterTileHit,
}

/// Shows a resident tile.
pub fn cached_raster_tile(hit: RasterTileHit) -> (element: CachedRasterTile)
    ensures
        element.hit == hit,
{
    CachedRasterTile { hit }
}

/// An element whose child is painted onto a surface of the compositor.
pub struct RasterCompositorSurfaceElement<C> {
    pub compositor_id: u64,
    pub captured_transform: RasterCompositorTransform,
    pub child: Option<C>,
}

/// Paints a child onto a surface that the compositor moves by a transform.
pub fn raster_compositor_surface<C>(
    compositor_id: u64,
    captured_transform: RasterCompositorTransform,
    child: C,
) -> (element: RasterCompositorSurfaceElement<C>)
    ensures
        element == (RasterCompositorSurfaceElement {
            compositor_id,
            captured_transform,
            child: Some(child),
        }),
{
    RasterCompositorSurfaceElement { compositor_id, captured_transform, child: Some(child) }
}

/// An element whose child is rasterized into one tile.
pub struct RasterizeTile<C> {
    pub miss: RasterTileMiss,
    pub texture_size: DeviceSize,
    pub gutter: i32,
    pub child: Option<C>,
    /// The tile is also shown.
    pub compose: bool,
}

/// Rasterizes a child into a tile and shows the tile in the same frame.
pub fn rasterize_tile<C>(
    miss: RasterTileMiss,
    texture_size: DeviceSize,
    gutter: i32,
    child: C,
) -> (element: RasterizeTile<C>)
    ensures
        element == (RasterizeTile {
            miss,
            texture_size,
            gutter,
            child: Some(child),
            compose: true,
        }),
{
    RasterizeTile { miss, texture_size, gutter, child: Some(child), compose: true }
}

/// Rasterizes a child into a tile without showing it.
pub fn rasterize_tile_shadow<C>(
    miss: RasterTileMiss,
    texture_size: DeviceSize,
    gutter: i32,
    child: C,
) -> (element: RasterizeTile<C>)
    ensures
        element == (RasterizeTile {
            miss,
            texture_size,
            gutter,
            child: Some(child),
            compose: false,
        }),
{
    RasterizeTile { miss, texture_size, gutter, child: Some(child), compose: false }
}

/// A tile to be rasterized: where its contents come from, and where it is shown.
#[derive(Debug)]
pub struct TileCapture {
    pub miss: RasterTileMiss,
    pub source_bounds: Bounds,
    pub composition_bounds: Bounds,
}

/// A capture in the pixels of the device: where its contents come from, and where it is
/// shown.
#[derive(Clone, Copy, Debug, PartialEq, Eq, Structural)]
pub struct CapturePlace {
    pub source_bounds: Bounds,
    pub composition_bounds: Bounds,
}

/// An element whose child is rasterized into several tiles at once.
pub struct RasterizeTiles<C> {
    pub captures: Vec<TileCapture>,
    pub texture_size: DeviceSize,
    pub gutter: i32,
    pub child: Option<C>,
    /// The tiles are also shown, and rasterized with the frame; else after it.
    pub compose: bool,
    /// The tiles are compared with a direct rendering.
    pub verify: bool,
}

/// Rasterizes a child into several tiles and shows them in the same frame.
pub fn rasterize_tiles<C>(
    captures: Vec<TileCapture>,
    texture_size: DeviceSize,
    gutter: i32,
    child: C,
) -> (element: RasterizeTiles<C>)
    ensures
        element == (RasterizeTiles {
            captures,
            texture_size,
            gutter,
            child: Some(child),
            compose: true,
            verify: false,
        }),
{
    rasterize_tiles_inner(captures, texture_size, gutter, child, true, false)
}

/// Rasterizes a child into several tiles after the frame, without showing them, and
/// compares them with a direct rendering.
pub fn rasterize_tiles_shadow<C>(
    captures: Vec<TileCapture>,
    texture_size: DeviceSize,
    gutter: i32,
    child: C,
) -> (element: RasterizeTiles<C>)
    ensures
        element == (RasterizeTiles {
            captures,
            texture_size,
            gutter,
            child: Some(child),
            compose: false,
            verify: true,
        }),
{
    rasterize_tiles_inner(captures, texture_size, gutter, child, false, true)
}

/// Rasterizes a child into several tiles after the frame, without showing them.
pub fn rasterize_tiles_deferred<C>(
    captures: Vec<TileCapture>,
    texture_size: DeviceSize,
    gutter: i32,
    child: C,
) -> (element: RasterizeTiles<C>)
    ensures
        element == (RasterizeTiles {
            captures,
            texture_size,
            gutter,
            child: Some(child),
            compose: false,
            verify: false,
        }),
{
    rasterize_tiles_inner(captures, texture_size, gutter, child, false, false)
}

fn rasterize_tiles_inner<C>(
    captures: Vec<TileCapture>,
    texture_size: DeviceSize,
    gutter: i32,
    child: C,
    compose: bool,
    verify: bool,
) -> (element: RasterizeTiles<C>)
    ensures
        element == (RasterizeTiles {
            captures,
            texture_size,
            gutter,
            child: Some(child),
            compose,
            verify,
        }),
{
    RasterizeTiles { captures, texture_size, gutter, child: Some(child), compose, verify }
}

/// A gutter as 32 bits without a sign hold it.
pub open spec fn unsigned_gutter(gutter: i32) -> u32 {
    if gutter >= 0 {
        gutter as u32
    } else {
        (gutter + 0x1_0000_0000) as u32
    }
}

fn to_unsigned(gutter: i32) -> (result: u32)
    ensures
        result == unsigned_gutter(gutter),
{
    if gutter >= 0 {
        gutter as u32
    } else {
        (gutter as i64 + 0x1_0000_0000) as u32
    }
}

/// The tile that shows a resident one.
pub open spec fn shown_tile(
    hit: RasterTileHit,
    bounds: Bounds,
    content_mask: ContentMask,
) -> RasterTile {
    RasterTile {
        order: 0,
        bounds,
        content_mask,
        cache_id: hit.cache.identity.id,
        key: hit.key.number,
        revision: hit.revision.number,
        gutter: hit.gutter,
    }
}

/// The tile that shows what was rasterized for a miss.
pub open spec fn composed_tile(
    cache_id: u64,
    miss: RasterTileMiss,
    bounds: Bounds,
    gutter: i32,
) -> RasterTile {
    RasterTile {
        order: 0,
        bounds,
        content_mask: ContentMask { bounds },
        cache_id,
        key: miss.key.number,
        revision: miss.revision.number,
        gutter: unsigned_gutter(gutter),
    }
}

fn compose_tile(
    cache_id: u64,
    miss: &RasterTileMiss,
    bounds: Bounds,
    gutter: i32,
) -> (tile: RasterTile)
    ensures
        tile == composed_tile(cache_id, *miss, bounds, gutter),
{
    RasterTile {
        order: 0,
        bounds,
        content_mask: ContentMask { bounds },
        cache_id,
        key: miss.key.value(),
        revision: miss.revision.value(),
        gutter: to_unsigned(gutter),
    }
}

impl CachedRasterTile {
    /// Paints the tile at its place, under the content mask of the window.
    pub fn paint(&self, scene: &mut Scene, bounds: Bounds, content_mask: ContentMask)
        requires
            old(scene)@.wf(),
            old(scene)@.inserted(
                Primitive::RasterTile(shown_tile(self.hit, bounds, content_mask)),
            ).fits(),
        ensures
            final(scene)@ == old(scene)@.inserted(
                Primitive::RasterTile(shown_tile(self.hit, bounds, content_mask)),
            ),
            final(scene)@.wf(),
    {
        scene.insert_primitive(
            Primitive::RasterTile(
                RasterTile {
                    order: 0,
                    bounds,
                    content_mask,
                    cache_id: self.hit.cache.id(),
                    key: self.hit.key.value(),
                    revision: self.hit.revision.value(),
                    gutter: self.hit.gutter,
                },
            ),
        );
    }

    /// Gives the element up with its handle.
    pub fn release(self, owners: &mut RasterCacheOwners)
        requires
            old(owners).wf(),
        ensures
            final(owners)@ == one_handle_less(old(owners)@, self.hit.cache.identity.id),
            final(owners).next_id == old(owners).next_id,
            final(owners).wf(),
    {
        self.hit.release(owners)
    }
}

impl<C> RasterCompositorSurfaceElement<C> {
    /// Puts the scene that the child has painted onto a surface: clipped to where the
    /// element is, and drawn for some way around it.
    pub fn paint(
        &self,
        scene: &mut Scene,
        surface_scene: Scene,
        clip_bounds: Rectangle,
        raster_bounds: Rectangle,
    )
        ensures
            ({
                let added = final(scene)@.compositors.last();
                &&& final(scene)@ == (SceneModel {
                    compositors: old(scene)@.compositors.push(added),
                    ..old(scene)@
                })
                &&& added.compositor_id == self.compositor_id
                &&& added.captured_transform == self.captured_transform
                &&& added.clip_bounds == clip_bounds
                &&& added.raster_bounds == raster_bounds
                &&& surface_scene@.finished_as(added.scene@)
            }),
    {
        let mut surface_scene = surface_scene;
        surface_scene.finish();
        scene.raster_compositor_surfaces.push(
            RasterCompositorSurface {
                compositor_id: self.compositor_id,
                captured_transform: self.captured_transform,
                clip_bounds,
                raster_bounds,
                scene: surface_scene,
            },
        );
    }
}

impl<C> RasterizeTile<C> {
    /// Asks for the scene that the child has painted to be rasterized, and shows the
    /// tile if it is to be shown. What is asked for has a handle of its own.
    pub fn paint(
        &self,
        owners: &mut RasterCacheOwners,
        scene: &mut Scene,
        tile_scene: Scene,
        bounds: Bounds,
    )
        requires
            old(owners).shareable(self.miss.cache.identity.id),
            old(scene)@.wf(),
            self.compose ==> old(scene)@.inserted(
                Primitive::RasterTile(
                    composed_tile(self.miss.cache.identity.id, self.miss, bounds, self.gutter),
                ),
            ).fits(),
        ensures
            final(owners)@ == one_more_handle(old(owners)@, self.miss.cache.identity.id),
            final(owners).next_id == old(owners).next_id,
            final(owners).wf(),
            ({
                let added = final(scene)@.updates.last();
                let asked = SceneModel {
                    updates: old(scene)@.updates.push(added),
                    ..old(scene)@
                };
                &&& final(scene)@ == if self.compose {
                    asked.inserted(
                        Primitive::RasterTile(
                            composed_tile(
                                self.miss.cache.identity.id,
                                self.miss,
                                bounds,
                                self.gutter,
                            ),
                        ),
                    )
                } else {
                    asked
                }
                &&& added.cache == self.miss.cache
                &&& added.key == self.miss.key
                &&& added.revision == self.miss.revision
                &&& added.texture_size == self.texture_size
                &&& added.gutter == self.gutter
                &&& added.source_bounds == bounds
                &&& tile_scene@.finished_as(added.scene@)
            }),
            final(scene)@.wf(),
    {
        let mut tile_scene = tile_scene;
        tile_scene.finish();
        scene.raster_tile_updates.push(
            RasterTileUpdate {
                cache: self.miss.cache.duplicate(owners),
                key: self.miss.key,
                revision: self.miss.revision,
                texture_size: self.texture_size,
                gutter: self.gutter,
                source_bounds: bounds,
                scene: tile_scene,
            },
        );
        if self.compose {
            let tile = compose_tile(self.miss.cache.id(), &self.miss, bounds, self.gutter);
            scene.insert_primitive(Primitive::RasterTile(tile));
        }
    }

    /// Gives the element up with its handle.
    pub fn release(self, owners: &mut RasterCacheOwners)
        requires
            old(owners).wf(),
        ensures
            final(owners)@ == one_handle_less(old(owners)@, self.miss.cache.identity.id),
            final(owners).next_id == old(owners).next_id,
            final(owners).wf(),
    {
        self.miss.release(owners)
    }
}

/// The rectangle around the sources of the first `n` captures.
pub open spec fn around_captures(captures: Seq<TileCapture>, n: int) -> Bounds
    decreases n,
{
    if n <= 1 {
        captures[0].source_bounds
    } else {
        around_captures(captures, n - 1).spec_union(captures[n - 1].source_bounds)
    }
}

/// The targets of captures, with their sources in the pixels of the device.
pub open spec fn capture_targets(
    captures: Seq<TileCapture>,
    places: Seq<CapturePlace>,
) -> Seq<RasterTileUpdateTarget> {
    Seq::new(
        captures.len(),
        |i: int|
            RasterTileUpdateTarget {
                key: captures[i].miss.key,
                revision: captures[i].miss.revision,
                source_bounds: places[i].source_bounds,
            },
    )
}

/// What is painted to show captures: the tile of each.
pub open spec fn capture_paint(
    captures: Seq<TileCapture>,
    places: Seq<CapturePlace>,
    gutter: i32,
) -> Seq<PaintOperation> {
    Seq::new(
        captures.len(),
        |i: int|
            PaintOperation::Primitive(
                Primitive::RasterTile(
                    composed_tile(
                        captures[0].miss.cache.identity.id,
                        captures[i].miss,
                        places[i].composition_bounds,
                        gutter,
                    ),
                ),
            ),
    )
}

/// Painting leaves the batches of a scene alone, and does not depend on them.
proof fn painting_spares_batches(
    model: SceneModel,
    batches: Seq<RasterTileUpdateBatch>,
    operations: Seq<PaintOperation>,
)
    ensures
        (SceneModel { batches, ..model }).replayed(operations) == (SceneModel {
            batches,
            ..model.replayed(operations)
        }),
    decreases operations.len(),
{
    if operations.len() > 0 {
        painting_spares_batches(model, batches, operations.drop_last());
    }
}

/// The handles after those of the first `n` captures were given up.
pub open spec fn captures_released(
    handles: Map<u64, u64>,
    captures: Seq<TileCapture>,
    n: int,
) -> Map<u64, u64>
    decreases n,
{
    if n <= 0 {
        handles
    } else {
        one_handle_less(
            captures_released(handles, captures, n - 1),
            captures[n - 1].miss.cache.identity.id,
        )
    }
}

impl<C> RasterizeTiles<C> {
    /// The rectangle around the sources of all captures, if there are any.
    pub fn capture_bounds(&self) -> (bounds: Option<Bounds>)
        ensures
            bounds is Some <==> self.captures@.len() > 0,
            bounds is Some ==> bounds->0 == around_captures(
                self.captures@,
                self.captures@.len() as int,
            ),
    {
        if self.captures.len() == 0 {
            return None;
        }
        let mut bounds = self.captures[0].source_bounds;
        let mut i: usize = 1;
        while i < self.captures.len()
            invariant
                1 <= i <= self.captures@.len(),
                bounds == around_captures(self.captures@, i as int),
            decreases self.captures@.len() - i,
        {
            bounds = bounds.union(self.captures[i].source_bounds);
            i = i + 1;
        }
        Some(bounds)
    }

    /// Asks for the scene that the child has painted to be rasterized into all tiles,
    /// and shows them if they are to be shown. The places of the captures in the pixels
    /// of the device are given. What is asked for has a handle of its own, of
    /// the cache of the first capture. Without captures nothing is painted, and the
    /// scene of the child is given up.
    pub fn paint(
        &self,
        owners: &mut RasterCacheOwners,
        scene: &mut Scene,
        tile_scene: Scene,
        places: &Vec<CapturePlace>,
    )
        requires
            old(owners).wf(),
            places@.len() == self.captures@.len(),
            self.captures@.len() > 0 ==> old(owners).shareable(
                self.captures@[0].miss.cache.identity.id,
            ),
            old(scene)@.wf(),
            self.compose ==> old(scene)@.replayed(
                capture_paint(self.captures@, places@, self.gutter),
            ).fits(),
        ensures
            final(owners).next_id == old(owners).next_id,
            final(owners).wf(),
            self.captures@.len() == 0 ==> {
                &&& final(scene)@ == old(scene)@
                &&& final(owners)@ == scene_released(old(owners)@, tile_scene)
            },
            self.captures@.len() > 0 ==> final(owners)@ == one_more_handle(
                old(owners)@,
                self.captures@[0].miss.cache.identity.id,
            ),
            self.captures@.len() > 0 ==> {
                let added = final(scene)@.batches.last();
                let asked = SceneModel {
                    batches: old(scene)@.batches.push(added),
                    ..old(scene)@
                };
                &&& final(scene)@ == if self.compose {
                    asked.replayed(capture_paint(self.captures@, places@, self.gutter))
                } else {
                    asked
                }
                &&& added.cache == self.captures@[0].miss.cache
                &&& added.texture_size == self.texture_size
                &&& added.gutter == self.gutter
                &&& added.targets@ == capture_targets(self.captures@, places@)
                &&& added.deferred == !self.compose
                &&& added.verify == self.verify
                &&& tile_scene@.finished_as(added.scene@)
            },
            final(scene)@.wf(),
    {
        if self.captures.len() == 0 {
            tile_scene.release(owners);
            return;
        }
        let mut tile_scene = tile_scene;
        tile_scene.finish();
        let cache = self.captures[0].miss.cache.duplicate(owners);
        let cache_id: u64 = cache.id();
        let mut targets: Vec<RasterTileUpdateTarget> = Vec::new();
        let mut i: usize = 0;
        while i < self.captures.len()
            invariant
                i <= self.captures@.len(),
                places@.len() == self.captures@.len(),
                targets@ =~= capture_targets(self.captures@, places@).take(i as int),
            decreases self.captures@.len() - i,
        {
            targets.push(
                RasterTileUpdateTarget {
                    key: self.captures[i].miss.key,
                    revision: self.captures[i].miss.revision,
                    source_bounds: places[i].source_bounds,
                },
            );
            i = i + 1;
        }
        proof {
            assert(capture_targets(self.captures@, places@).take(i as int) =~= capture_targets(
                self.captures@,
                places@,
            ));
        }
        let batch = RasterTileUpdateBatch {
            cache,
            texture_size: self.texture_size,
            gutter: self.gutter,
            targets,
            scene: tile_scene,
            deferred: !self.compose,
            verify: self.verify,
        };
        scene.raster_tile_update_batches.push(batch);
        if !self.compose {
            return;
        }
        let ghost asked = scene@;
        let ghost paint = capture_paint(self.captures@, places@, self.gutter);
        let mut k: usize = 0;
        proof {
            assert(paint.take(0) =~= Seq::<PaintOperation>::empty());
            painting_spares_batches(old(scene)@, asked.batches, paint);
        }
        while k < self.captures.len()
            invariant
                k <= self.captures@.len(),
                places@.len() == self.captures@.len(),
                cache_id == self.captures@[0].miss.cache.identity.id,
                paint == capture_paint(self.captures@, places@, self.gutter),
                scene@ == asked.replayed(paint.take(k as int)),
                scene@.wf(),
                scene@.batches == asked.batches,
                asked.replayed(paint).fits(),
            decreases self.captures@.len() - k,
        {
            let tile = compose_tile(
                cache_id,
                &self.captures[k].miss,
                places[k].composition_bounds,
                self.gutter,
            );
            proof {
                assert(paint.take(k + 1).drop_last() =~= paint.take(k as int));
                assert(paint.take(k + 1).last() == PaintOperation::Primitive(
                    Primitive::RasterTile(tile),
                ));
                orders_suffice_before(asked, paint, k + 1);
            }
            scene.insert_primitive(Primitive::RasterTile(tile));
            k = k + 1;
        }
        proof {
            assert(paint.take(k as int) =~= paint);
        }
    }

    /// Gives the element up with the handles of its captures.
    pub fn release(self, owners: &mut RasterCacheOwners)
        requires
            old(owners).wf(),
        ensures
            final(owners)@ == captures_released(
                old(owners)@,
                self.captures@,
                self.captures@.len() as int,
            ),
            final(owners).next_id == old(owners).next_id,
            final(owners).wf(),
    {
        let ghost before = owners@;
        let mut i: usize = 0;
        while i < self.captures.len()
            invariant
                i <= self.captures@.len(),
                owners@ == captures_released(before, self.captures@, i as int),
                owners.next_id == old(owners).next_id,
                owners.wf(),
            decreases self.captures@.len() - i,
        {
            owners.give_up(self.captures[i].miss.cache.id());
            i = i + 1;
        }
    }
}

} // verus!
