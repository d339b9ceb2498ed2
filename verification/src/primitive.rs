//! What is painted: the primitives of a scene and the operations that record them.
use vstd::prelude::*;

use crate::float_bits::{Float32, FLOAT32_ONE};
use crate::geometry::{Bounds, ContentMask, Point};
use crate::stable_sort::Keyed;

verus! {

/// Where a primitive stands in the sequence of drawing.
pub type DrawOrder = u32;

/// How an outline is drawn.
#[derive(Clone, Copy, Debug, PartialEq, Eq, Structural)]
pub enum BorderStyle {
    /// Without gaps.
    Solid,
    /// With gaps.
    Dashed,
}

impl Default for BorderStyle {
    fn default() -> (style: BorderStyle)
        ensures
            style == BorderStyle::Solid,
    {
        BorderStyle::Solid
    }
}

/// A texture of the atlas.
#[derive(Clone, Copy, Debug, PartialEq, Eq, Structural)]
pub struct AtlasTextureId {
    pub index: u32,
    pub kind: u32,
}

/// A part of a texture of the atlas.
#[derive(Clone, Copy, Debug, PartialEq, Eq, Structural)]
pub struct AtlasTile {
    pub texture_id: AtlasTextureId,
    pub tile_id: u32,
}

/// The place of a path among the paths of its scene.
#[derive(Clone, Copy, Debug, PartialEq, Eq, Structural)]
pub struct PathId(pub usize);

/// An affine map: two rows of rotation and scale, and a translation.
#[derive(Clone, Copy, Debug, PartialEq, Eq, Structural)]
pub struct TransformationMatrix {
    pub first_row: Point,
    pub second_row: Point,
    pub translation: Point,
}

impl TransformationMatrix {
    /// The map that moves nothing.
    pub open spec fn spec_unit() -> TransformationMatrix {
        TransformationMatrix {
            first_row: Point { x: Float32 { bits: FLOAT32_ONE }, y: Float32::spec_zero() },
            second_row: Point { x: Float32::spec_zero(), y: Float32 { bits: FLOAT32_ONE } },
            translation: Point { x: Float32::spec_zero(), y: Float32::spec_zero() },
        }
    }

    /// The map that moves nothing.
    pub fn unit() -> (matrix: TransformationMatrix)
        ensures
            matrix == TransformationMatrix::spec_unit(),
    {
        TransformationMatrix {
            first_row: Point { x: Float32 { bits: FLOAT32_ONE }, y: Float32::zero() },
            second_row: Point { x: Float32::zero(), y: Float32 { bits: FLOAT32_ONE } },
            translation: Point { x: Float32::zero(), y: Float32::zero() },
        }
    }
}

impl Default for TransformationMatrix {
    fn default() -> (matrix: TransformationMatrix)
        ensures
            matrix == TransformationMatrix::spec_unit(),
    {
        TransformationMatrix::unit()
    }
}

/// A blurred rectangle.
#[derive(Clone, Copy, Debug, PartialEq, Eq, Structural)]
pub struct Shadow {
    pub order: DrawOrder,
    pub bounds: Bounds,
    pub content_mask: ContentMask,
    /// How the primitive is placed.
    pub transformation: TransformationMatrix,
    /// Where the rest of the description is kept.
    pub style: u64,
    /// The area with the blur, in squared device pixels.
    pub expanded_area_device_px2: u64,
}

impl Keyed for Shadow {
    open spec fn key(&self) -> int {
        self.order as int
    }

    fn sort_key(&self) -> (result: u64) {
        self.order as u64
    }
}

/// A filled or outlined rectangle.
#[derive(Clone, Copy, Debug, PartialEq, Eq, Structural)]
pub struct Quad {
    pub order: DrawOrder,
    pub bounds: Bounds,
    pub content_mask: ContentMask,
    /// How the outline is drawn.
    pub border_style: BorderStyle,
    /// How the primitive is placed.
    pub transformation: TransformationMatrix,
    /// Where the rest of the description is kept.
    pub style: u64,
    /// The area inside the content mask, in squared device pixels.
    pub clipped_area_device_px2: u64,
}

impl Keyed for Quad {
    open spec fn key(&self) -> int {
        self.order as int
    }

    fn sort_key(&self) -> (result: u64) {
        self.order as u64
    }
}

/// A filled path.
#[derive(Clone, Copy, Debug, PartialEq, Eq, Structural)]
pub struct ScenePath {
    pub order: DrawOrder,
    pub bounds: Bounds,
    pub content_mask: ContentMask,
    /// The place among the paths of the scene.
    pub id: PathId,
    /// The number of vertices.
    pub vertex_count: usize,
    /// The number of contour segments.
    pub contour_count: usize,
    /// Where the present contour begins, and where the path has come to.
    pub start: Point,
    pub current: Point,
    /// Where the vertices are kept.
    pub geometry: u64,
    /// Where the rest of the description is kept.
    pub style: u64,
}

impl Keyed for ScenePath {
    open spec fn key(&self) -> int {
        self.order as int
    }

    fn sort_key(&self) -> (result: u64) {
        self.order as u64
    }
}

/// A line under text.
#[derive(Clone, Copy, Debug, PartialEq, Eq, Structural)]
pub struct Underline {
    pub order: DrawOrder,
    pub bounds: Bounds,
    pub content_mask: ContentMask,
    /// Where the rest of the description is kept.
    pub style: u64,
}

impl Keyed for Underline {
    open spec fn key(&self) -> int {
        self.order as int
    }

    fn sort_key(&self) -> (result: u64) {
        self.order as u64
    }
}

/// A glyph or an icon of one colour.
#[derive(Clone, Copy, Debug, PartialEq, Eq, Structural)]
pub struct MonochromeSprite {
    pub order: DrawOrder,
    pub bounds: Bounds,
    pub content_mask: ContentMask,
    /// The part of the atlas.
    pub tile: AtlasTile,
    /// How the sprite is placed.
    pub transformation: TransformationMatrix,
    /// Where the rest of the description is kept.
    pub style: u64,
}

impl Keyed for MonochromeSprite {
    open spec fn key(&self) -> int {
        self.order * 0x1_0000_0000 + self.tile.tile_id
    }

    fn sort_key(&self) -> (result: u64) {
        (self.order as u64) * 0x1_0000_0000 + (self.tile.tile_id as u64)
    }
}

/// A picture or an emoji.
#[derive(Clone, Copy, Debug, PartialEq, Eq, Structural)]
pub struct PolychromeSprite {
    pub order: DrawOrder,
    pub bounds: Bounds,
    pub content_mask: ContentMask,
    /// The part of the atlas.
    pub tile: AtlasTile,
    /// How the sprite is placed.
    pub transformation: TransformationMatrix,
    /// Where the rest of the description is kept.
    pub style: u64,
}

impl Keyed for PolychromeSprite {
    open spec fn key(&self) -> int {
        self.order * 0x1_0000_0000 + self.tile.tile_id
    }

    fn sort_key(&self) -> (result: u64) {
        (self.order as u64) * 0x1_0000_0000 + (self.tile.tile_id as u64)
    }
}

/// A surface of the platform.
#[derive(Clone, Copy, Debug, PartialEq, Eq, Structural)]
pub struct PaintSurface {
    pub order: DrawOrder,
    pub bounds: Bounds,
    pub content_mask: ContentMask,
    /// Where the surface is kept.
    pub image: u64,
}

impl Keyed for PaintSurface {
    open spec fn key(&self) -> int {
        self.order as int
    }

    fn sort_key(&self) -> (result: u64) {
        self.order as u64
    }
}

/// A tile of a raster cache.
#[derive(Clone, Copy, Debug, PartialEq, Eq, Structural)]
pub struct RasterTile {
    pub order: DrawOrder,
    pub bounds: Bounds,
    pub content_mask: ContentMask,
    /// The cache.
    pub cache_id: u64,
    /// The tile.
    pub key: u64,
    /// The state of the tile.
    pub revision: u64,
    /// The margin around the tile's contents, in device pixels.
    pub gutter: u32,
}

impl Keyed for RasterTile {
    open spec fn key(&self) -> int {
        self.order as int
    }

    fn sort_key(&self) -> (result: u64) {
        self.order as u64
    }
}

/// The sorts of primitives, in the sequence in which those of one order are drawn.
#[derive(Clone, Copy, Debug, PartialEq, Eq, PartialOrd, Ord, Structural)]
pub enum PrimitiveKind {
    Shadow,
    Quad,
    Path,
    Underline,
    MonochromeSprite,
    PolychromeSprite,
    Surface,
    RasterTile,
}

impl PrimitiveKind {
    /// The place in the sequence of drawing.
    pub open spec fn rank(self) -> int {
        match self {
            PrimitiveKind::Shadow => 0,
            PrimitiveKind::Quad => 1,
            PrimitiveKind::Path => 2,
            PrimitiveKind::Underline => 3,
            PrimitiveKind::MonochromeSprite => 4,
            PrimitiveKind::PolychromeSprite => 5,
            PrimitiveKind::Surface => 6,
            PrimitiveKind::RasterTile => 7,
        }
    }

    /// The sort at a place in the sequence of drawing.
    pub open spec fn spec_at(rank: int) -> PrimitiveKind {
        if rank == 0 {
            PrimitiveKind::Shadow
        } else if rank == 1 {
            PrimitiveKind::Quad
        } else if rank == 2 {
            PrimitiveKind::Path
        } else if rank == 3 {
            PrimitiveKind::Underline
        } else if rank == 4 {
            PrimitiveKind::MonochromeSprite
        } else if rank == 5 {
            PrimitiveKind::PolychromeSprite
        } else if rank == 6 {
            PrimitiveKind::Surface
        } else {
            PrimitiveKind::RasterTile
        }
    }

    /// The sort at a place in the sequence of drawing.
    pub fn at(rank: usize) -> (kind: PrimitiveKind)
        requires
            rank < 8,
        ensures
            kind == PrimitiveKind::spec_at(rank as int),
            kind.rank() == rank,
    {
        match rank {
            0 => PrimitiveKind::Shadow,
            1 => PrimitiveKind::Quad,
            2 => PrimitiveKind::Path,
            3 => PrimitiveKind::Underline,
            4 => PrimitiveKind::MonochromeSprite,
            5 => PrimitiveKind::PolychromeSprite,
            6 => PrimitiveKind::Surface,
            _ => PrimitiveKind::RasterTile,
        }
    }
}

impl Default for PrimitiveKind {
    fn default() -> (kind: PrimitiveKind)
        ensures
            kind == PrimitiveKind::Quad,
    {
        PrimitiveKind::Quad
    }
}

/// A primitive of any sort.
#[derive(Clone, Copy, Debug, PartialEq, Eq, Structural)]
pub enum Primitive {
    Shadow(Shadow),
    Quad(Quad),
    Path(ScenePath),
    Underline(Underline),
    MonochromeSprite(MonochromeSprite),
    PolychromeSprite(PolychromeSprite),
    Surface(PaintSurface),
    RasterTile(RasterTile),
}

impl Primitive {
    /// The rectangle that the primitive covers.
    pub open spec fn spec_bounds(self) -> Bounds {
        match self {
            Primitive::Shadow(primitive) => primitive.bounds,
            Primitive::Quad(primitive) => primitive.bounds,
            Primitive::Path(primitive) => primitive.bounds,
            Primitive::Underline(primitive) => primitive.bounds,
            Primitive::MonochromeSprite(primitive) => primitive.bounds,
            Primitive::PolychromeSprite(primitive) => primitive.bounds,
            Primitive::Surface(primitive) => primitive.bounds,
            Primitive::RasterTile(primitive) => primitive.bounds,
        }
    }

    /// What the primitive is clipped to.
    pub open spec fn spec_content_mask(self) -> ContentMask {
        match self {
            Primitive::Shadow(primitive) => primitive.content_mask,
            Primitive::Quad(primitive) => primitive.content_mask,
            Primitive::Path(primitive) => primitive.content_mask,
            Primitive::Underline(primitive) => primitive.content_mask,
            Primitive::MonochromeSprite(primitive) => primitive.content_mask,
            Primitive::PolychromeSprite(primitive) => primitive.content_mask,
            Primitive::Surface(primitive) => primitive.content_mask,
            Primitive::RasterTile(primitive) => primitive.content_mask,
        }
    }

    /// The sort of the primitive.
    pub open spec fn kind(self) -> PrimitiveKind {
        match self {
            Primitive::Shadow(primitive) => PrimitiveKind::Shadow,
            Primitive::Quad(primitive) => PrimitiveKind::Quad,
            Primitive::Path(primitive) => PrimitiveKind::Path,
            Primitive::Underline(primitive) => PrimitiveKind::Underline,
            Primitive::MonochromeSprite(primitive) => PrimitiveKind::MonochromeSprite,
            Primitive::PolychromeSprite(primitive) => PrimitiveKind::PolychromeSprite,
            Primitive::Surface(primitive) => PrimitiveKind::Surface,
            Primitive::RasterTile(primitive) => PrimitiveKind::RasterTile,
        }
    }

    /// The order of the primitive.
    pub open spec fn order(self) -> DrawOrder {
        match self {
            Primitive::Shadow(primitive) => primitive.order,
            Primitive::Quad(primitive) => primitive.order,
            Primitive::Path(primitive) => primitive.order,
            Primitive::Underline(primitive) => primitive.order,
            Primitive::MonochromeSprite(primitive) => primitive.order,
            Primitive::PolychromeSprite(primitive) => primitive.order,
            Primitive::Surface(primitive) => primitive.order,
            Primitive::RasterTile(primitive) => primitive.order,
        }
    }

    /// What is left of the primitive inside its content mask.
    pub open spec fn clipped(self) -> Bounds {
        self.spec_bounds().spec_intersect(self.spec_content_mask().bounds)
    }

    /// The primitive at an order; a path also at a place among the paths.
    pub open spec fn placed(self, order: DrawOrder, path_id: PathId) -> Primitive {
        match self {
            Primitive::Shadow(primitive) => Primitive::Shadow(Shadow { order, ..primitive }),
            Primitive::Quad(primitive) => Primitive::Quad(Quad { order, ..primitive }),
            Primitive::Path(primitive) => Primitive::Path(ScenePath { order, id: path_id, ..primitive }),
            Primitive::Underline(primitive) => Primitive::Underline(Underline { order, ..primitive }),
            Primitive::MonochromeSprite(primitive) => Primitive::MonochromeSprite(
                MonochromeSprite { order, ..primitive },
            ),
            Primitive::PolychromeSprite(primitive) => Primitive::PolychromeSprite(
                PolychromeSprite { order, ..primitive },
            ),
            Primitive::Surface(primitive) => Primitive::Surface(PaintSurface { order, ..primitive }),
            Primitive::RasterTile(primitive) => Primitive::RasterTile(RasterTile { order, ..primitive }),
        }
    }

    /// The rectangle that the primitive covers.
    pub fn bounds(&self) -> (bounds: Bounds)
        ensures
            bounds == self.spec_bounds(),
    {
        match self {
            Primitive::Shadow(primitive) => primitive.bounds,
            Primitive::Quad(primitive) => primitive.bounds,
            Primitive::Path(primitive) => primitive.bounds,
            Primitive::Underline(primitive) => primitive.bounds,
            Primitive::MonochromeSprite(primitive) => primitive.bounds,
            Primitive::PolychromeSprite(primitive) => primitive.bounds,
            Primitive::Surface(primitive) => primitive.bounds,
            Primitive::RasterTile(primitive) => primitive.bounds,
        }
    }

    /// What the primitive is clipped to.
    pub fn content_mask(&self) -> (mask: ContentMask)
        ensures
            mask == self.spec_content_mask(),
    {
        match self {
            Primitive::Shadow(primitive) => primitive.content_mask,
            Primitive::Quad(primitive) => primitive.content_mask,
            Primitive::Path(primitive) => primitive.content_mask,
            Primitive::Underline(primitive) => primitive.content_mask,
            Primitive::MonochromeSprite(primitive) => primitive.content_mask,
            Primitive::PolychromeSprite(primitive) => primitive.content_mask,
            Primitive::Surface(primitive) => primitive.content_mask,
            Primitive::RasterTile(primitive) => primitive.content_mask,
        }
    }
}

/// The geometry of a primitive under a transform, and where the rest of its
/// description is kept then.
#[derive(Clone, Copy, Debug, PartialEq, Eq, Structural)]
pub struct TransformedGeometry {
    pub bounds: Bounds,
    pub content_mask: ContentMask,
    pub transformation: TransformationMatrix,
    pub area_device_px2: u64,
    /// The points of a path.
    pub start: Point,
    pub current: Point,
    pub geometry: u64,
    pub style: u64,
}

impl Primitive {
    /// The primitive under a transform: bounds, mask and placement follow it, as do
    /// the lengths that are kept elsewhere. What the primitive shows, its order and
    /// its place among paths stay.
    pub open spec fn spec_transformed(self, to: TransformedGeometry) -> Primitive {
        let bounds = to.bounds;
        let content_mask = to.content_mask;
        let transformation = to.transformation;
        let style = to.style;
        match self {
            Primitive::Shadow(template) => Primitive::Shadow(
                Shadow {
                    bounds,
                    content_mask,
                    transformation,
                    style,
                    expanded_area_device_px2: to.area_device_px2,
                    ..template
                },
            ),
            Primitive::Quad(template) => Primitive::Quad(
                Quad {
                    bounds,
                    content_mask,
                    transformation,
                    style,
                    clipped_area_device_px2: to.area_device_px2,
                    ..template
                },
            ),
            Primitive::Path(template) => Primitive::Path(
                ScenePath {
                    bounds,
                    content_mask,
                    start: to.start,
                    current: to.current,
                    geometry: to.geometry,
                    ..template
                },
            ),
            Primitive::Underline(template) => Primitive::Underline(
                Underline { bounds, content_mask, style, ..template },
            ),
            Primitive::MonochromeSprite(template) => Primitive::MonochromeSprite(
                MonochromeSprite { bounds, content_mask, transformation, ..template },
            ),
            Primitive::PolychromeSprite(template) => Primitive::PolychromeSprite(
                PolychromeSprite { bounds, content_mask, transformation, style, ..template },
            ),
            Primitive::Surface(template) => Primitive::Surface(
                PaintSurface { bounds, content_mask, ..template },
            ),
            Primitive::RasterTile(template) => Primitive::RasterTile(
                RasterTile { bounds, content_mask, ..template },
            ),
        }
    }

    /// The primitive under a transform, whose geometry was computed.
    pub fn transformed(&self, to: TransformedGeometry) -> (primitive: Primitive)
        ensures
            primitive == self.spec_transformed(to),
            primitive.kind() == self.kind(),
            primitive.order() == self.order(),
            primitive.spec_bounds() == to.bounds,
            primitive.spec_content_mask() == to.content_mask,
    {
        match *self {
            Primitive::Shadow(template) => {
                let mut item = template;
                item.bounds = to.bounds;
                item.content_mask = to.content_mask;
                item.transformation = to.transformation;
                item.style = to.style;
                item.expanded_area_device_px2 = to.area_device_px2;
                Primitive::Shadow(item)
            },
            Primitive::Quad(template) => {
                let mut item = template;
                item.bounds = to.bounds;
                item.content_mask = to.content_mask;
                item.transformation = to.transformation;
                item.style = to.style;
                item.clipped_area_device_px2 = to.area_device_px2;
                Primitive::Quad(item)
            },
            Primitive::Path(template) => {
                let mut item = template;
                item.bounds = to.bounds;
                item.content_mask = to.content_mask;
                item.start = to.start;
                item.current = to.current;
                item.geometry = to.geometry;
                Primitive::Path(item)
            },
            Primitive::Underline(template) => {
                let mut item = template;
                item.bounds = to.bounds;
                item.content_mask = to.content_mask;
                item.style = to.style;
                Primitive::Underline(item)
            },
            Primitive::MonochromeSprite(template) => {
                let mut item = template;
                item.bounds = to.bounds;
                item.content_mask = to.content_mask;
                item.transformation = to.transformation;
                Primitive::MonochromeSprite(item)
            },
            Primitive::PolychromeSprite(template) => {
                let mut item = template;
                item.bounds = to.bounds;
                item.content_mask = to.content_mask;
                item.transformation = to.transformation;
                item.style = to.style;
                Primitive::PolychromeSprite(item)
            },
            Primitive::Surface(template) => {
                let mut item = template;
                item.bounds = to.bounds;
                item.content_mask = to.content_mask;
                Primitive::Surface(item)
            },
            Primitive::RasterTile(template) => {
                let mut item = template;
                item.bounds = to.bounds;
                item.content_mask = to.content_mask;
                Primitive::RasterTile(item)
            },
        }
    }
}

impl From<Shadow> for Primitive {
    fn from(item: Shadow) -> (primitive: Primitive) {
        Primitive::Shadow(item)
    }
}

impl vstd::std_specs::convert::FromSpecImpl<Shadow> for Primitive {
    open spec fn obeys_from_spec() -> bool {
        true
    }

    open spec fn from_spec(item: Shadow) -> Primitive {
        Primitive::Shadow(item)
    }
}

impl From<Quad> for Primitive {
    fn from(item: Quad) -> (primitive: Primitive) {
        Primitive::Quad(item)
    }
}

impl vstd::std_specs::convert::FromSpecImpl<Quad> for Primitive {
    open spec fn obeys_from_spec() -> bool {
        true
    }

    open spec fn from_spec(item: Quad) -> Primitive {
        Primitive::Quad(item)
    }
}

impl From<ScenePath> for Primitive {
    fn from(item: ScenePath) -> (primitive: Primitive) {
        Primitive::Path(item)
    }
}

impl vstd::std_specs::convert::FromSpecImpl<ScenePath> for Primitive {
    open spec fn obeys_from_spec() -> bool {
        true
    }

    open spec fn from_spec(item: ScenePath) -> Primitive {
        Primitive::Path(item)
    }
}

impl From<Underline> for Primitive {
    fn from(item: Underline) -> (primitive: Primitive) {
        Primitive::Underline(item)
    }
}

impl vstd::std_specs::convert::FromSpecImpl<Underline> for Primitive {
    open spec fn obeys_from_spec() -> bool {
        true
    }

    open spec fn from_spec(item: Underline) -> Primitive {
        Primitive::Underline(item)
    }
}

impl From<MonochromeSprite> for Primitive {
    fn from(item: MonochromeSprite) -> (primitive: Primitive) {
        Primitive::MonochromeSprite(item)
    }
}

impl vstd::std_specs::convert::FromSpecImpl<MonochromeSprite> for Primitive {
    open spec fn obeys_from_spec() -> bool {
        true
    }

    open spec fn from_spec(item: MonochromeSprite) -> Primitive {
        Primitive::MonochromeSprite(item)
    }
}

impl From<PolychromeSprite> for Primitive {
    fn from(item: PolychromeSprite) -> (primitive: Primitive) {
        Primitive::PolychromeSprite(item)
    }
}

impl vstd::std_specs::convert::FromSpecImpl<PolychromeSprite> for Primitive {
    open spec fn obeys_from_spec() -> bool {
        true
    }

    open spec fn from_spec(item: PolychromeSprite) -> Primitive {
        Primitive::PolychromeSprite(item)
    }
}

impl From<PaintSurface> for Primitive {
    fn from(item: PaintSurface) -> (primitive: Primitive) {
        Primitive::Surface(item)
    }
}

impl vstd::std_specs::convert::FromSpecImpl<PaintSurface> for Primitive {
    open spec fn obeys_from_spec() -> bool {
        true
    }

    open spec fn from_spec(item: PaintSurface) -> Primitive {
        Primitive::Surface(item)
    }
}

impl From<RasterTile> for Primitive {
    fn from(item: RasterTile) -> (primitive: Primitive) {
        Primitive::RasterTile(item)
    }
}

impl vstd::std_specs::convert::FromSpecImpl<RasterTile> for Primitive {
    open spec fn obeys_from_spec() -> bool {
        true
    }

    open spec fn from_spec(item: RasterTile) -> Primitive {
        Primitive::RasterTile(item)
    }
}

/// A step of painting.
#[derive(Clone, Copy, Debug, PartialEq, Eq, Structural)]
pub enum PaintOperation {
    /// A primitive was inserted.
    Primitive(Primitive),
    /// A layer was entered.
    StartLayer(Bounds),
    /// The innermost layer was left.
    EndLayer,
}

/// The primitives of a scene by their sort.
pub struct PrimitiveLists {
    pub shadows: Seq<Shadow>,
    pub quads: Seq<Quad>,
    pub paths: Seq<ScenePath>,
    pub underlines: Seq<Underline>,
    pub monochrome_sprites: Seq<MonochromeSprite>,
    pub polychrome_sprites: Seq<PolychromeSprite>,
    pub surfaces: Seq<PaintSurface>,
    pub raster_tiles: Seq<RasterTile>,
}

impl PrimitiveLists {
    /// No primitives.
    pub open spec fn empty() -> PrimitiveLists {
        PrimitiveLists {
            shadows: Seq::empty(),
            quads: Seq::empty(),
            paths: Seq::empty(),
            underlines: Seq::empty(),
            monochrome_sprites: Seq::empty(),
            polychrome_sprites: Seq::empty(),
            surfaces: Seq::empty(),
            raster_tiles: Seq::empty(),
        }
    }

    /// With one more primitive at the end of its list.
    pub open spec fn with(self, primitive: Primitive) -> PrimitiveLists {
        match primitive {
            Primitive::Shadow(primitive) => PrimitiveLists {
                shadows: self.shadows.push(primitive),
                ..self
            },
            Primitive::Quad(primitive) => PrimitiveLists {
                quads: self.quads.push(primitive),
                ..self
            },
            Primitive::Path(primitive) => PrimitiveLists {
                paths: self.paths.push(primitive),
                ..self
            },
            Primitive::Underline(primitive) => PrimitiveLists {
                underlines: self.underlines.push(primitive),
                ..self
            },
            Primitive::MonochromeSprite(primitive) => PrimitiveLists {
                monochrome_sprites: self.monochrome_sprites.push(primitive),
                ..self
            },
            Primitive::PolychromeSprite(primitive) => PrimitiveLists {
                polychrome_sprites: self.polychrome_sprites.push(primitive),
                ..self
            },
            Primitive::Surface(primitive) => PrimitiveLists {
                surfaces: self.surfaces.push(primitive),
                ..self
            },
            Primitive::RasterTile(primitive) => PrimitiveLists {
                raster_tiles: self.raster_tiles.push(primitive),
                ..self
            },
        }
    }
}

} // verus!
