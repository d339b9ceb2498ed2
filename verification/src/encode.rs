//! What is drawn from a scene, and where in the instance buffer it is written.
//!
//! Encoding goes through the batches of a scene and gives every draw a run of the
//! buffer. It ends at the first draw that does not fit. A buffer of the required
//! size is always large enough.
use vstd::prelude::*;

use crate::batches::{at_start, batches_from, indexed, lanes_of, PrimitiveBatch};
use crate::geometry::{Bounds, DeviceSize};
use crate::gpu_types::PathSprite;
use crate::instance_buffer::{
    aligned, align_offset, batch_reserved, batch_reserved_grows, batches_reserved,
    batches_reserved_grows, each_reserved, each_reserved_grows, path_sprite_count, reserved, scene_reserved,
    vertices_reserved, vertices_reserved_grows, within_lists, InstanceSizes,
};
use crate::primitive::{PrimitiveKind, PrimitiveLists, RasterTile, ScenePath};
use crate::residency::{
    cached_raster_texture_key, index_of, CachedRasterTexture, CachedRasterTextureKey,
    RasterResidency,
};
use crate::scene::Scene;

verus! {

/// What a draw reads from the instance buffer.
#[derive(Clone, Copy, Debug, PartialEq, Eq, Structural)]
pub enum DrawPass {
    /// The instances of a batch.
    Instances,
    /// The vertices of one path, drawn into the intermediate texture.
    PathVertices,
    /// The rectangles that paths are copied by from the intermediate texture.
    PathSprites,
}

/// A draw: primitives of one list, and the run of the buffer that is theirs.
#[derive(Clone, Copy, Debug, PartialEq, Eq, Structural)]
pub struct DrawStep {
    pub kind: PrimitiveKind,
    pub pass: DrawPass,
    pub start: usize,
    pub end: usize,
    pub offset: usize,
    pub bytes: usize,
    /// The texture that a raster tile is drawn from.
    pub texture: Option<CachedRasterTexture>,
}

/// What a pass draws into.
#[derive(Clone, Copy, Debug, PartialEq, Eq, Structural)]
pub enum PassTarget {
    /// The texture of a tile update.
    Tile { update: usize, allocation: u64, fresh: bool },
    /// The texture of a batch, with the frame or in a buffer of its own.
    Batch { batch: usize, allocation: u64, size: DeviceSize, deferred: bool },
    /// The texture that a batch is compared with, and the account that the comparison
    /// is for.
    Comparison { batch: usize, account: u64 },
    /// The drawable.
    Drawable,
}

/// A step of drawing a frame.
#[derive(Clone, Copy, Debug, PartialEq, Eq, Structural)]
pub enum FrameStep {
    /// A pass begins.
    Begin(PassTarget),
    /// Something is drawn in the pass.
    Draw(DrawStep),
}

/// How far encoding has come.
pub struct EncodeState {
    /// Behind the last run.
    pub offset: int,
    /// The steps so far.
    pub steps: Seq<FrameStep>,
    /// The sort of primitive that did not fit.
    pub failed: Option<PrimitiveKind>,
}

/// Encodes scenes into a buffer of some capacity.
pub struct Encoder {
    pub offset: usize,
    pub steps: Vec<FrameStep>,
    pub failed: Option<PrimitiveKind>,
    pub capacity: usize,
}

impl EncodeState {
    /// With a run for one more draw, unless it does not fit.
    pub open spec fn placed(
        self,
        capacity: usize,
        kind: PrimitiveKind,
        pass: DrawPass,
        start: int,
        end: int,
        bytes: int,
    ) -> EncodeState {
        self.placed_from(capacity, kind, pass, start, end, bytes, None)
    }

    /// With a run for one more draw that reads a texture, unless it does not fit.
    pub open spec fn placed_from(
        self,
        capacity: usize,
        kind: PrimitiveKind,
        pass: DrawPass,
        start: int,
        end: int,
        bytes: int,
        texture: Option<CachedRasterTexture>,
    ) -> EncodeState {
        let at = aligned(self.offset);
        if self.failed is Some {
            self
        } else if at + bytes > capacity {
            EncodeState { offset: at, failed: Some(kind), ..self }
        } else {
            EncodeState {
                offset: at + bytes,
                steps: self.steps.push(
                    FrameStep::Draw(
                        DrawStep {
                            kind,
                            pass,
                            start: start as usize,
                            end: end as usize,
                            offset: at as usize,
                            bytes: bytes as usize,
                            texture,
                        },
                    ),
                ),
                ..self
            }
        }
    }

    /// With the vertices of paths, each path a draw of its own.
    pub open spec fn vertices_placed(
        self,
        capacity: usize,
        paths: Seq<ScenePath>,
        sizes: InstanceSizes,
        start: int,
        end: int,
    ) -> EncodeState
        decreases end - start,
    {
        if end <= start {
            self
        } else {
            self.vertices_placed(capacity, paths, sizes, start, end - 1).placed(
                capacity,
                PrimitiveKind::Path,
                DrawPass::PathVertices,
                end - 1,
                end,
                paths[end - 1].vertex_count * sizes.path_vertex,
            )
        }
    }

    /// With surfaces, each a draw of its own.
    pub open spec fn surfaces_placed(
        self,
        capacity: usize,
        size: usize,
        start: int,
        end: int,
    ) -> EncodeState
        decreases end - start,
    {
        if end <= start {
            self
        } else {
            self.surfaces_placed(capacity, size, start, end - 1).placed(
                capacity,
                PrimitiveKind::Surface,
                DrawPass::Instances,
                end - 1,
                end,
                size as int,
            )
        }
    }

    /// With the raster tiles that are on the device, each a draw of its own.
    pub open spec fn tiles_placed(
        self,
        capacity: usize,
        tiles: Seq<RasterTile>,
        textures: Seq<CachedRasterTexture>,
        size: usize,
        start: int,
        end: int,
    ) -> EncodeState
        decreases end - start,
    {
        if end <= start {
            self
        } else {
            let before = self.tiles_placed(capacity, tiles, textures, size, start, end - 1);
            let i = resident_at(textures, tiles[end - 1]);
            if i >= 0 {
                before.placed_from(
                    capacity,
                    PrimitiveKind::RasterTile,
                    DrawPass::Instances,
                    end - 1,
                    end,
                    size as int,
                    Some(textures[i]),
                )
            } else {
                before
            }
        }
    }

    /// With a batch. Paths need a texture to be rasterized in.
    pub open spec fn batch_placed(
        self,
        capacity: usize,
        lists: PrimitiveLists,
        sizes: InstanceSizes,
        textures: Seq<CachedRasterTexture>,
        path_texture: bool,
        batch: PrimitiveBatch,
    ) -> EncodeState {
        let start = batch.start as int;
        let end = batch.end as int;
        let instances = DrawPass::Instances;
        match batch.kind {
            PrimitiveKind::Shadow => self.placed(
                capacity,
                batch.kind,
                instances,
                start,
                end,
                (end - start) * sizes.shadow,
            ),
            PrimitiveKind::Quad => self.placed(
                capacity,
                batch.kind,
                instances,
                start,
                end,
                (end - start) * sizes.quad,
            ),
            PrimitiveKind::Path => if self.failed is Some {
                self
            } else if !path_texture {
                EncodeState { failed: Some(PrimitiveKind::Path), ..self }
            } else {
                self.vertices_placed(capacity, lists.paths, sizes, start, end).placed(
                    capacity,
                    batch.kind,
                    DrawPass::PathSprites,
                    start,
                    end,
                    path_sprite_count(lists.paths, start, end) * sizes.path_sprite,
                )
            },
            PrimitiveKind::Underline => self.placed(
                capacity,
                batch.kind,
                instances,
                start,
                end,
                (end - start) * sizes.underline,
            ),
            PrimitiveKind::MonochromeSprite => self.placed(
                capacity,
                batch.kind,
                instances,
                start,
                end,
                (end - start) * sizes.monochrome_sprite,
            ),
            PrimitiveKind::PolychromeSprite => self.placed(
                capacity,
                batch.kind,
                instances,
                start,
                end,
                (end - start) * sizes.polychrome_sprite,
            ),
            PrimitiveKind::Surface => self.surfaces_placed(capacity, sizes.surface, start, end),
            PrimitiveKind::RasterTile => self.tiles_placed(
                capacity,
                lists.raster_tiles,
                textures,
                sizes.raster_tile,
                start,
                end,
            ),
        }
    }

    /// With batches in sequence.
    pub open spec fn batches_placed(
        self,
        capacity: usize,
        lists: PrimitiveLists,
        sizes: InstanceSizes,
        textures: Seq<CachedRasterTexture>,
        path_texture: bool,
        batches: Seq<PrimitiveBatch>,
    ) -> EncodeState
        decreases batches.len(),
    {
        if batches.len() == 0 {
            self
        } else {
            self.batches_placed(
                capacity,
                lists,
                sizes,
                textures,
                path_texture,
                batches.drop_last(),
            ).batch_placed(capacity, lists, sizes, textures, path_texture, batches.last())
        }
    }

    /// With the primitives of a scene, in the sequence of drawing.
    pub open spec fn scene_placed(
        self,
        capacity: usize,
        lists: PrimitiveLists,
        sizes: InstanceSizes,
        textures: Seq<CachedRasterTexture>,
        path_texture: bool,
    ) -> EncodeState {
        self.batches_placed(
            capacity,
            lists,
            sizes,
            textures,
            path_texture,
            batches_from(lanes_of(lists), at_start()),
        )
    }

    /// With a pass begun.
    pub open spec fn begun(self, target: PassTarget) -> EncodeState {
        EncodeState { steps: self.steps.push(FrameStep::Begin(target)), ..self }
    }
}

/// The place of a tile that is drawn among those on the device, or -1.
pub open spec fn resident_at(textures: Seq<CachedRasterTexture>, tile: RasterTile) -> int {
    index_of(
        textures,
        CachedRasterTextureKey {
            cache_id: tile.cache_id,
            tile_key: tile.key,
            revision: tile.revision,
        },
    )
}

/// The rectangle around paths from `start` to `end`, each clipped.
pub open spec fn around(paths: Seq<ScenePath>, start: int, end: int) -> Bounds
    decreases end - start,
{
    if end <= start + 1 {
        clipped_bounds(paths[start])
    } else {
        around(paths, start, end - 1).spec_union(clipped_bounds(paths[end - 1]))
    }
}

/// What is left of a path inside its content mask.
pub open spec fn clipped_bounds(path: ScenePath) -> Bounds {
    path.bounds.spec_intersect(path.content_mask.bounds)
}

/// The rectangles that paths are copied by from the intermediate texture. Paths of
/// one order are disjoint and are copied one by one; others are copied at once by
/// a rectangle around all of them, so that no pixel is copied twice.
pub fn path_sprites(paths: &Vec<ScenePath>, start: usize, end: usize) -> (sprites: Vec<PathSprite>)
    requires
        start < end <= paths@.len(),
    ensures
        sprites@.len() == path_sprite_count(paths@, start as int, end as int),
        paths@[end - 1].order == paths@[start as int].order ==> sprites@ == Seq::new(
            (end - start) as nat,
            |i: int| PathSprite { bounds: clipped_bounds(paths@[start + i]) },
        ),
        paths@[end - 1].order != paths@[start as int].order ==> sprites@ == seq![
            PathSprite { bounds: around(paths@, start as int, end as int) },
        ],
{
    let mut sprites: Vec<PathSprite> = Vec::new();
    if paths[end - 1].order == paths[start].order {
        let mut i: usize = start;
        while i < end
            invariant
                start <= i <= end <= paths@.len(),
                sprites@ =~= Seq::new(
                    (i - start) as nat,
                    |k: int| PathSprite { bounds: clipped_bounds(paths@[start + k]) },
                ),
            decreases end - i,
        {
            let bounds = paths[i].bounds.intersect(paths[i].content_mask.bounds);
            sprites.push(PathSprite { bounds });
            i = i + 1;
        }
    } else {
        let mut bounds = paths[start].bounds.intersect(paths[start].content_mask.bounds);
        let mut i: usize = start + 1;
        while i < end
            invariant
                start < i <= end <= paths@.len(),
                bounds == around(paths@, start as int, i as int),
            decreases end - i,
        {
            bounds = bounds.union(paths[i].bounds.intersect(paths[i].content_mask.bounds));
            i = i + 1;
        }
        sprites.push(PathSprite { bounds });
        assert(sprites@ =~= seq![
            PathSprite { bounds: around(paths@, start as int, end as int) },
        ]);
    }
    sprites
}

/// Where the texture comes from that paths are rasterized in.
#[derive(Clone, Copy, Debug, PartialEq, Eq, Structural)]
pub enum PathTexture {
    /// The renderer's own, which has the size of the target.
    Root,
    /// A new one of the size of the target.
    New,
    /// None: the target has no pixels.
    Unavailable,
}

/// The texture to rasterize paths in for a target of some size, where the
/// renderer's own texture has the size `root`.
pub fn path_texture_for_viewport(root: Option<DeviceSize>, size: DeviceSize) -> (texture:
    PathTexture)
    ensures
        texture is Root <==> root is Some && root->0.width == unsigned(size.width)
            && root->0.height == unsigned(size.height),
        texture is New <==> !(texture is Root) && size.width > 0 && size.height > 0,
{
    if let Some(root) = root {
        if root.width == unsigned_side(size.width) && root.height == unsigned_side(size.height) {
            return PathTexture::Root;
        }
    }
    if size.width <= 0 || size.height <= 0 {
        PathTexture::Unavailable
    } else {
        PathTexture::New
    }
}

/// A side without a sign.
pub open spec fn unsigned(length: i32) -> i32 {
    if length > 0 {
        length
    } else {
        0
    }
}

fn unsigned_side(length: i32) -> (result: i32)
    ensures
        result == unsigned(length),
{
    if length > 0 {
        length
    } else {
        0
    }
}

/// The size of the renderer's own path texture after the drawable was resized.
pub fn root_path_texture_size(size: DeviceSize) -> (texture: Option<DeviceSize>)
    ensures
        texture == if size.width > 0 && size.height > 0 {
            Some(size)
        } else {
            None
        },
{
    if size.width <= 0 || size.height <= 0 {
        None
    } else {
        Some(size)
    }
}

impl Encoder {
    /// How far encoding has come.
    pub open spec fn view(&self) -> EncodeState {
        EncodeState {
            offset: self.offset as int,
            steps: self.steps@,
            failed: self.failed,
        }
    }

    /// As long as nothing has failed, all runs lie within the buffer.
    pub open spec fn wf(&self) -> bool {
        &&& self.capacity <= usize::MAX - 255
        &&& self.failed is None ==> self.offset <= self.capacity
    }

    /// Nothing is encoded yet.
    pub fn new(capacity: usize) -> (encoder: Encoder)
        requires
            capacity <= usize::MAX - 255,
        ensures
            encoder.wf(),
            encoder.capacity == capacity,
            encoder@ == (EncodeState { offset: 0, steps: Seq::empty(), failed: None }),
    {
        Encoder { offset: 0, steps: Vec::new(), failed: None, capacity }
    }

    /// Begins a pass.
    pub fn begin(&mut self, target: PassTarget)
        requires
            old(self).wf(),
        ensures
            final(self).wf(),
            final(self).capacity == old(self).capacity,
            final(self)@ == old(self)@.begun(target),
    {
        self.steps.push(FrameStep::Begin(target));
    }

    fn place(
        &mut self,
        kind: PrimitiveKind,
        pass: DrawPass,
        start: usize,
        end: usize,
        count: usize,
        size: usize,
    )
        requires
            old(self).wf(),
        ensures
            final(self).wf(),
            final(self).capacity == old(self).capacity,
            final(self)@ == old(self)@.placed(
                old(self).capacity,
                kind,
                pass,
                start as int,
                end as int,
                count * size,
            ),
    {
        self.place_from(kind, pass, start, end, count, size, None)
    }

    fn place_from(
        &mut self,
        kind: PrimitiveKind,
        pass: DrawPass,
        start: usize,
        end: usize,
        count: usize,
        size: usize,
        texture: Option<CachedRasterTexture>,
    )
        requires
            old(self).wf(),
        ensures
            final(self).wf(),
            final(self).capacity == old(self).capacity,
            final(self)@ == old(self)@.placed_from(
                old(self).capacity,
                kind,
                pass,
                start as int,
                end as int,
                count * size,
                texture,
            ),
    {
        if self.failed.is_some() {
            return;
        }
        let at: usize = align_offset(self.offset);
        proof {
            assert(0 <= count * size <= u64::MAX * u64::MAX) by (nonlinear_arith)
                requires
                    0 <= count <= u64::MAX,
                    0 <= size <= u64::MAX,
            ;
        }
        let bytes: u128 = (count as u128) * (size as u128);
        if bytes > self.capacity as u128 || at as u128 + bytes > self.capacity as u128 {
            self.offset = at;
            self.failed = Some(kind);
            return;
        }
        let step = DrawStep { kind, pass, start, end, offset: at, bytes: bytes as usize, texture };
        self.steps.push(FrameStep::Draw(step));
        self.offset = at + bytes as usize;
    }

    fn place_vertices(
        &mut self,
        paths: &Vec<ScenePath>,
        sizes: &InstanceSizes,
        start: usize,
        end: usize,
    )
        requires
            old(self).wf(),
            start <= end <= paths@.len(),
        ensures
            final(self).wf(),
            final(self).capacity == old(self).capacity,
            final(self)@ == old(self)@.vertices_placed(
                old(self).capacity,
                paths@,
                *sizes,
                start as int,
                end as int,
            ),
    {
        let mut i: usize = start;
        while i < end
            invariant
                self.wf(),
                start <= i <= end <= paths@.len(),
                self.capacity == old(self).capacity,
                self@ == old(self)@.vertices_placed(
                    old(self).capacity,
                    paths@,
                    *sizes,
                    start as int,
                    i as int,
                ),
            decreases end - i,
        {
            self.place(
                PrimitiveKind::Path,
                DrawPass::PathVertices,
                i,
                i + 1,
                paths[i].vertex_count,
                sizes.path_vertex,
            );
            i = i + 1;
        }
    }

    fn place_surfaces(&mut self, size: usize, start: usize, end: usize)
        requires
            old(self).wf(),
            start <= end,
        ensures
            final(self).wf(),
            final(self).capacity == old(self).capacity,
            final(self)@ == old(self)@.surfaces_placed(
                old(self).capacity,
                size,
                start as int,
                end as int,
            ),
    {
        let mut i: usize = start;
        while i < end
            invariant
                self.wf(),
                start <= i <= end,
                self.capacity == old(self).capacity,
                self@ == old(self)@.surfaces_placed(
                    old(self).capacity,
                    size,
                    start as int,
                    i as int,
                ),
            decreases end - i,
        {
            self.place(PrimitiveKind::Surface, DrawPass::Instances, i, i + 1, 1, size);
            i = i + 1;
        }
    }

    fn place_tiles(
        &mut self,
        tiles: &Vec<RasterTile>,
        residency: &RasterResidency,
        size: usize,
        start: usize,
        end: usize,
    )
        requires
            old(self).wf(),
            start <= end <= tiles@.len(),
        ensures
            final(self).wf(),
            final(self).capacity == old(self).capacity,
            final(self)@ == old(self)@.tiles_placed(
                old(self).capacity,
                tiles@,
                residency@.textures,
                size,
                start as int,
                end as int,
            ),
    {
        let mut i: usize = start;
        while i < end
            invariant
                self.wf(),
                start <= i <= end <= tiles@.len(),
                self.capacity == old(self).capacity,
                self@ == old(self)@.tiles_placed(
                    old(self).capacity,
                    tiles@,
                    residency@.textures,
                    size,
                    start as int,
                    i as int,
                ),
            decreases end - i,
        {
            let key = cached_raster_texture_key(
                tiles[i].cache_id,
                tiles[i].key,
                tiles[i].revision,
            );
            if let Some(place) = residency.find(key) {
                self.place_from(
                    PrimitiveKind::RasterTile,
                    DrawPass::Instances,
                    i,
                    i + 1,
                    1,
                    size,
                    Some(residency.textures[place]),
                );
            }
            i = i + 1;
        }
    }

    fn place_batch(
        &mut self,
        scene: &Scene,
        sizes: &InstanceSizes,
        residency: &RasterResidency,
        path_texture: bool,
        batch: PrimitiveBatch,
    )
        requires
            old(self).wf(),
            within_lists(scene@.lists, batch),
        ensures
            final(self).wf(),
            final(self).capacity == old(self).capacity,
            final(self)@ == old(self)@.batch_placed(
                old(self).capacity,
                scene@.lists,
                *sizes,
                residency@.textures,
                path_texture,
                batch,
            ),
    {
        let count: usize = batch.end - batch.start;
        let start: usize = batch.start;
        let end: usize = batch.end;
        match batch.kind {
            PrimitiveKind::Shadow => {
                self.place(batch.kind, DrawPass::Instances, start, end, count, sizes.shadow);
            },
            PrimitiveKind::Quad => {
                self.place(batch.kind, DrawPass::Instances, start, end, count, sizes.quad);
            },
            PrimitiveKind::Path => {
                if self.failed.is_some() {
                    return;
                }
                if !path_texture {
                    self.failed = Some(PrimitiveKind::Path);
                    return;
                }
                self.place_vertices(&scene.paths, sizes, start, end);
                let sprites: usize = if scene.paths[end - 1].order == scene.paths[start].order {
                    count
                } else {
                    1
                };
                self.place(
                    batch.kind,
                    DrawPass::PathSprites,
                    start,
                    end,
                    sprites,
                    sizes.path_sprite,
                );
            },
            PrimitiveKind::Underline => {
                self.place(batch.kind, DrawPass::Instances, start, end, count, sizes.underline);
            },
            PrimitiveKind::MonochromeSprite => {
                self.place(
                    batch.kind,
                    DrawPass::Instances,
                    start,
                    end,
                    count,
                    sizes.monochrome_sprite,
                );
            },
            PrimitiveKind::PolychromeSprite => {
                self.place(
                    batch.kind,
                    DrawPass::Instances,
                    start,
                    end,
                    count,
                    sizes.polychrome_sprite,
                );
            },
            PrimitiveKind::Surface => {
                self.place_surfaces(sizes.surface, start, end);
            },
            PrimitiveKind::RasterTile => {
                self.place_tiles(&scene.raster_tiles, residency, sizes.raster_tile, start, end);
            },
        }
    }

    /// Encodes the primitives of a scene, in the sequence of drawing, up to the
    /// first draw that does not fit. Raster tiles that are not on the device are
    /// left out. Returns whether everything was encoded.
    pub fn encode_scene(
        &mut self,
        scene: &Scene,
        sizes: &InstanceSizes,
        residency: &RasterResidency,
        path_texture: bool,
    ) -> (encoded: bool)
        requires
            old(self).wf(),
        ensures
            final(self).wf(),
            final(self).capacity == old(self).capacity,
            final(self)@ == old(self)@.scene_placed(
                old(self).capacity,
                scene@.lists,
                *sizes,
                residency@.textures,
                path_texture,
            ),
            encoded == final(self)@.failed is None,
    {
        let batches = scene.batches();
        proof {
            crate::batches::lists_are_indexed(scene);
            crate::batches::batches_lie_within(lanes_of(scene@.lists), at_start());
            assert(batches@.take(0) =~= Seq::<PrimitiveBatch>::empty());
        }
        let mut i: usize = 0;
        while i < batches.len()
            invariant
                self.wf(),
                i <= batches@.len(),
                forall|k: int|
                    0 <= k < batches@.len() ==> within_lists(scene@.lists, #[trigger] batches@[k]),
                self.capacity == old(self).capacity,
                self@ == old(self)@.batches_placed(
                    old(self).capacity,
                    scene@.lists,
                    *sizes,
                    residency@.textures,
                    path_texture,
                    batches@.take(i as int),
                ),
            decreases batches@.len() - i,
        {
            proof {
                assert(batches@.take(i + 1).drop_last() =~= batches@.take(i as int));
                assert(batches@.take(i + 1).last() == batches@[i as int]);
                assert(within_lists(scene@.lists, batches@[i as int]));
            }
            self.place_batch(scene, sizes, residency, path_texture, batches[i]);
            i = i + 1;
        }
        proof {
            assert(batches@.take(i as int) =~= batches@);
        }
        self.failed.is_none()
    }
}

proof fn alignment_rises(a: int, b: int)
    requires
        0 <= a <= b,
    ensures
        a <= aligned(a) <= aligned(b),
        aligned(aligned(a)) == aligned(a),
{
}

/// What holds while encoding keeps up with what was reserved: nothing has failed,
/// and the next run starts no later than the next reserved one.
pub open spec fn keeps_up(state: EncodeState, reserved_to: int) -> bool {
    state.failed is None && 0 <= state.offset <= aligned(reserved_to)
}

proof fn placing_keeps_up(
    state: EncodeState,
    capacity: usize,
    kind: PrimitiveKind,
    pass: DrawPass,
    start: int,
    end: int,
    bytes: int,
    reserved_to: int,
)
    requires
        keeps_up(state, reserved_to),
        reserved_to >= 0,
        bytes > 0,
        reserved(reserved_to, bytes) <= capacity,
    ensures
        keeps_up(
            state.placed(capacity, kind, pass, start, end, bytes),
            reserved(reserved_to, bytes),
        ),
        forall|texture: Option<CachedRasterTexture>|
            keeps_up(
                #[trigger] state.placed_from(capacity, kind, pass, start, end, bytes, texture),
                reserved(reserved_to, bytes),
            ),
{
    alignment_rises(state.offset, aligned(reserved_to));
    alignment_rises(reserved_to, reserved_to);
    alignment_rises(reserved(reserved_to, bytes), reserved(reserved_to, bytes));
}

proof fn vertices_keep_up(
    state: EncodeState,
    capacity: usize,
    paths: Seq<ScenePath>,
    sizes: InstanceSizes,
    start: int,
    end: int,
    reserved_to: int,
)
    requires
        keeps_up(state, reserved_to),
        reserved_to >= 0,
        aligned(vertices_reserved(paths, sizes, reserved_to, start, end)) <= capacity,
    ensures
        keeps_up(
            state.vertices_placed(capacity, paths, sizes, start, end),
            vertices_reserved(paths, sizes, reserved_to, start, end),
        ),
    decreases end - start,
{
    if end > start {
        let bytes = paths[end - 1].vertex_count * sizes.path_vertex;
        assert(bytes >= 0) by (nonlinear_arith)
            requires
                bytes == paths[end - 1].vertex_count * sizes.path_vertex,
                paths[end - 1].vertex_count >= 0,
                sizes.path_vertex >= 0,
        ;
        let before = vertices_reserved(paths, sizes, reserved_to, start, end - 1);
        vertices_reserved_grows(paths, sizes, reserved_to, start, end - 1);
        let after = reserved(before, bytes);
        crate::instance_buffer::reserving_fits(before, bytes);
        alignment_rises(before, after);
        vertices_keep_up(state, capacity, paths, sizes, start, end - 1, reserved_to);
        let reached = state.vertices_placed(capacity, paths, sizes, start, end - 1);
        alignment_rises(after, after);
        if bytes > 0 {
            placing_keeps_up(
                reached,
                capacity,
                PrimitiveKind::Path,
                DrawPass::PathVertices,
                end - 1,
                end,
                bytes,
                before,
            );
        } else {
            alignment_rises(reached.offset, aligned(before));
            alignment_rises(before, before);
        }
    }
}

proof fn surfaces_keep_up(
    state: EncodeState,
    capacity: usize,
    size: usize,
    start: int,
    end: int,
    reserved_to: int,
)
    requires
        keeps_up(state, reserved_to),
        reserved_to >= 0,
        size > 0,
        each_reserved(reserved_to, size as int, end - start) <= capacity,
    ensures
        keeps_up(
            state.surfaces_placed(capacity, size, start, end),
            each_reserved(reserved_to, size as int, end - start),
        ),
        each_reserved(reserved_to, size as int, end - start) >= reserved_to,
    decreases end - start,
{
    if end > start {
        let before = each_reserved(reserved_to, size as int, end - 1 - start);
        each_reserved_grows(reserved_to, size as int, end - 1 - start);
        crate::instance_buffer::reserving_fits(before, size as int);
        surfaces_keep_up(state, capacity, size, start, end - 1, reserved_to);
        placing_keeps_up(
            state.surfaces_placed(capacity, size, start, end - 1),
            capacity,
            PrimitiveKind::Surface,
            DrawPass::Instances,
            end - 1,
            end,
            size as int,
            before,
        );
    }
}

proof fn tiles_keep_up(
    state: EncodeState,
    capacity: usize,
    tiles: Seq<RasterTile>,
    textures: Seq<CachedRasterTexture>,
    size: usize,
    start: int,
    end: int,
    reserved_to: int,
)
    requires
        keeps_up(state, reserved_to),
        reserved_to >= 0,
        size > 0,
        each_reserved(reserved_to, size as int, end - start) <= capacity,
    ensures
        keeps_up(
            state.tiles_placed(capacity, tiles, textures, size, start, end),
            each_reserved(reserved_to, size as int, end - start),
        ),
    decreases end - start,
{
    if end > start {
        let before = each_reserved(reserved_to, size as int, end - 1 - start);
        each_reserved_grows(reserved_to, size as int, end - 1 - start);
        crate::instance_buffer::reserving_fits(before, size as int);
        alignment_rises(before, reserved(before, size as int));
        tiles_keep_up(state, capacity, tiles, textures, size, start, end - 1, reserved_to);
        if resident_at(textures, tiles[end - 1]) >= 0 {
            placing_keeps_up(
                state.tiles_placed(capacity, tiles, textures, size, start, end - 1),
                capacity,
                PrimitiveKind::RasterTile,
                DrawPass::Instances,
                end - 1,
                end,
                size as int,
                before,
            );
        }
    }
}

proof fn batch_keeps_up(
    state: EncodeState,
    capacity: usize,
    lists: PrimitiveLists,
    sizes: InstanceSizes,
    textures: Seq<CachedRasterTexture>,
    path_texture: bool,
    batch: PrimitiveBatch,
    reserved_to: int,
)
    requires
        keeps_up(state, reserved_to),
        reserved_to >= 0,
        sizes.positive(),
        batch.start < batch.end,
        batch.kind == PrimitiveKind::Path ==> path_texture,
        batch_reserved(lists, sizes, reserved_to, batch) <= capacity,
    ensures
        keeps_up(
            state.batch_placed(capacity, lists, sizes, textures, path_texture, batch),
            batch_reserved(lists, sizes, reserved_to, batch),
        ),
{
    let start = batch.start as int;
    let end = batch.end as int;
    let count = end - start;
    match batch.kind {
        PrimitiveKind::Path => {
            let vertices = vertices_reserved(lists.paths, sizes, reserved_to, start, end);
            vertices_reserved_grows(lists.paths, sizes, reserved_to, start, end);
            let sprites = path_sprite_count(lists.paths, start, end);
            positive_product(sprites, sizes.path_sprite as int);
            vertices_keep_up(state, capacity, lists.paths, sizes, start, end, reserved_to);
            placing_keeps_up(
                state.vertices_placed(capacity, lists.paths, sizes, start, end),
                capacity,
                PrimitiveKind::Path,
                DrawPass::PathSprites,
                start,
                end,
                sprites * sizes.path_sprite,
                vertices,
            );
        },
        PrimitiveKind::Surface => {
            surfaces_keep_up(state, capacity, sizes.surface, start, end, reserved_to);
        },
        PrimitiveKind::RasterTile => {
            tiles_keep_up(
                state,
                capacity,
                lists.raster_tiles,
                textures,
                sizes.raster_tile,
                start,
                end,
                reserved_to,
            );
        },
        _ => {
            let size = match batch.kind {
                PrimitiveKind::Shadow => sizes.shadow,
                PrimitiveKind::Quad => sizes.quad,
                PrimitiveKind::Underline => sizes.underline,
                PrimitiveKind::MonochromeSprite => sizes.monochrome_sprite,
                _ => sizes.polychrome_sprite,
            };
            positive_product(count, size as int);
            placing_keeps_up(
                state,
                capacity,
                batch.kind,
                DrawPass::Instances,
                start,
                end,
                count * size,
                reserved_to,
            );
        },
    }
}

proof fn positive_product(a: int, b: int)
    requires
        a > 0,
        b > 0,
    ensures
        a * b > 0,
{
    assert(a * b > 0) by (nonlinear_arith)
        requires
            a > 0,
            b > 0,
    ;
}

proof fn batches_keep_up(
    state: EncodeState,
    capacity: usize,
    lists: PrimitiveLists,
    sizes: InstanceSizes,
    textures: Seq<CachedRasterTexture>,
    path_texture: bool,
    batches: Seq<PrimitiveBatch>,
    reserved_to: int,
)
    requires
        keeps_up(state, reserved_to),
        reserved_to >= 0,
        sizes.positive(),
        forall|i: int| 0 <= i < batches.len() ==> within_lists(lists, #[trigger] batches[i]),
        lists.paths.len() > 0 ==> path_texture,
        batches_reserved(lists, sizes, reserved_to, batches) <= capacity,
    ensures
        keeps_up(
            state.batches_placed(capacity, lists, sizes, textures, path_texture, batches),
            batches_reserved(lists, sizes, reserved_to, batches),
        ),
    decreases batches.len(),
{
    if batches.len() > 0 {
        let rest = batches.drop_last();
        let batch = batches.last();
        assert(within_lists(lists, batches[batches.len() - 1]));
        assert forall|i: int| 0 <= i < rest.len() implies within_lists(
            lists,
            #[trigger] rest[i],
        ) by {
            assert(within_lists(lists, batches[i]));
        }
        let before = batches_reserved(lists, sizes, reserved_to, rest);
        batches_reserved_grows(lists, sizes, reserved_to, rest);
        batch_reserved_grows(lists, sizes, before, batch);
        batches_keep_up(
            state,
            capacity,
            lists,
            sizes,
            textures,
            path_texture,
            rest,
            reserved_to,
        );
        batch_keeps_up(
            state.batches_placed(capacity, lists, sizes, textures, path_texture, rest),
            capacity,
            lists,
            sizes,
            textures,
            path_texture,
            batch,
            before,
        );
    }
}

/// A scene for which enough room was reserved is encoded as a whole, whatever
/// tiles are on the device: as long as encoding has kept up with the reservation,
/// the scene fits into a buffer that holds what is reserved for it, and encoding
/// keeps up.
pub proof fn reserved_room_suffices(
    state: EncodeState,
    capacity: usize,
    lists: PrimitiveLists,
    sizes: InstanceSizes,
    textures: Seq<CachedRasterTexture>,
    path_texture: bool,
    reserved_to: int,
)
    requires
        keeps_up(state, reserved_to),
        reserved_to >= 0,
        sizes.positive(),
        indexed(lanes_of(lists), at_start()),
        lists.paths.len() > 0 ==> path_texture,
        scene_reserved(lists, sizes, reserved_to) <= capacity,
    ensures
        keeps_up(
            state.scene_placed(capacity, lists, sizes, textures, path_texture),
            scene_reserved(lists, sizes, reserved_to),
        ),
{
    crate::batches::batches_lie_within(lanes_of(lists), at_start());
    let batches = batches_from(lanes_of(lists), at_start());
    assert forall|i: int| 0 <= i < batches.len() implies within_lists(
        lists,
        #[trigger] batches[i],
    ) by {}
    batches_keep_up(
        state,
        capacity,
        lists,
        sizes,
        textures,
        path_texture,
        batches,
        reserved_to,
    );
}

} // verus!
