//! What is written to the device besides the primitives themselves.
use vstd::prelude::*;

use crate::float_bits::{Float32, FLOAT32_ONE};
use crate::geometry::{Bounds, ContentMask, DeviceSize, Point};
use crate::primitive::{PaintSurface, RasterTile, ScenePath};
use crate::residency::CachedRasterTexture;

verus! {

/// The part of a scene that a pass shows: the size of its target, and the point of
/// the scene in its upper left corner.
#[derive(Clone, Copy, Debug, PartialEq, Eq, Structural)]
pub struct Viewport {
    pub size: DeviceSize,
    pub origin: Point,
}

/// A vertex of a path as it is rasterized.
#[derive(Clone, Copy, Debug, PartialEq, Eq, Structural)]
pub struct PathRasterizationVertex {
    pub xy_position: Point,
    pub st_position: Point,
}

/// How a path is filled, and what it is clipped to.
#[derive(Clone, Copy, Debug, PartialEq, Eq, Structural)]
pub struct PathRasterizationStyle {
    /// Where the colour is kept.
    pub style: u64,
    pub bounds: Bounds,
}

/// A rectangle that is copied from the texture in which paths are rasterized.
#[derive(Clone, Copy, Debug, PartialEq, Eq, Structural)]
pub struct PathSprite {
    pub bounds: Bounds,
}

/// Where a surface of the platform is shown.
#[derive(Clone, Copy, Debug, PartialEq, Eq, Structural)]
pub struct SurfaceBounds {
    pub bounds: Bounds,
    pub content_mask: ContentMask,
}

/// Where a raster tile is shown, and where it lies in its texture.
#[derive(Clone, Copy, Debug, PartialEq, Eq, Structural)]
pub struct RasterTileBounds {
    pub bounds: Bounds,
    pub content_mask: ContentMask,
    pub texture_size: DeviceSize,
    pub source_x: i32,
    pub source_y: i32,
    pub source_size: DeviceSize,
    pub gutter: i32,
    pub padding: i32,
}

/// How a path is filled: clipped to its content mask.
pub fn path_rasterization_style(path: &ScenePath) -> (style: PathRasterizationStyle)
    ensures
        style == (PathRasterizationStyle {
            style: path.style,
            bounds: path.bounds.spec_intersect(path.content_mask.bounds),
        }),
{
    PathRasterizationStyle {
        style: path.style,
        bounds: path.bounds.intersect(path.content_mask.bounds),
    }
}

/// Where a surface is shown.
pub fn surface_bounds(surface: &PaintSurface) -> (bounds: SurfaceBounds)
    ensures
        bounds == (SurfaceBounds {
            bounds: surface.bounds,
            content_mask: surface.content_mask,
        }),
{
    SurfaceBounds { bounds: surface.bounds, content_mask: surface.content_mask }
}

/// A gutter as 32 bits with a sign hold it.
pub open spec fn signed_gutter(gutter: u32) -> i32 {
    if gutter <= i32::MAX {
        gutter as i32
    } else {
        (gutter - 0x1_0000_0000) as i32
    }
}

fn to_signed(gutter: u32) -> (result: i32)
    ensures
        result == signed_gutter(gutter),
{
    if gutter <= i32::MAX as u32 {
        gutter as i32
    } else {
        (gutter as i64 - 0x1_0000_0000) as i32
    }
}

/// Where a tile is shown and where it lies in its texture.
pub fn raster_tile_bounds(
    tile: &RasterTile,
    texture: &CachedRasterTexture,
    texture_size: DeviceSize,
) -> (bounds: RasterTileBounds)
    ensures
        bounds == (RasterTileBounds {
            bounds: tile.bounds,
            content_mask: tile.content_mask,
            texture_size,
            source_x: texture.source_x,
            source_y: texture.source_y,
            source_size: texture.source_size,
            gutter: signed_gutter(tile.gutter),
            padding: 0,
        }),
{
    RasterTileBounds {
        bounds: tile.bounds,
        content_mask: tile.content_mask,
        texture_size,
        source_x: texture.source_x,
        source_y: texture.source_y,
        source_size: texture.source_size,
        gutter: to_signed(tile.gutter),
        padding: 0,
    }
}

/// Two numbers in the layout of a vertex: the second above the first.
pub fn to_float2_bits(point: Point) -> (bits: u64)
    ensures
        bits as int == point.y.bits * 0x1_0000_0000 + point.x.bits,
{
    (point.y.bits as u64) * 0x1_0000_0000 + (point.x.bits as u64)
}

/// A corner of the unit square.
pub open spec fn corner(right: bool, below: bool) -> int {
    (if below {
        FLOAT32_ONE * 0x1_0000_0000
    } else {
        0
    }) + (if right {
        FLOAT32_ONE as int
    } else {
        0
    })
}

/// The unit square as two triangles.
pub fn unit_vertices() -> (vertices: Vec<u64>)
    ensures
        vertices@.len() == 6,
        vertices@[0] as int == corner(false, false),
        vertices@[1] as int == corner(true, false),
        vertices@[2] as int == corner(false, true),
        vertices@[3] as int == corner(false, true),
        vertices@[4] as int == corner(true, false),
        vertices@[5] as int == corner(true, true),
{
    let zero = Float32::zero();
    let one = Float32::from_bits(FLOAT32_ONE);
    let mut vertices: Vec<u64> = Vec::new();
    vertices.push(to_float2_bits(Point::new(zero, zero)));
    vertices.push(to_float2_bits(Point::new(one, zero)));
    vertices.push(to_float2_bits(Point::new(zero, one)));
    vertices.push(to_float2_bits(Point::new(zero, one)));
    vertices.push(to_float2_bits(Point::new(one, zero)));
    vertices.push(to_float2_bits(Point::new(one, one)));
    vertices
}

/// What decides between devices.
#[derive(Clone, Copy, Debug, PartialEq, Eq, Structural)]
pub struct DeviceTraits {
    pub removable: bool,
    pub low_power: bool,
}

/// How far behind a device stands: built-in devices come before removable ones,
/// and among those devices of low power first.
pub open spec fn device_rank(device: DeviceTraits) -> int {
    (if device.removable {
        2int
    } else {
        0
    }) + (if device.low_power {
        0int
    } else {
        1
    })
}

fn rank_of(device: DeviceTraits) -> (rank: u8)
    ensures
        rank as int == device_rank(device),
{
    match (device.removable, device.low_power) {
        (false, true) => 0,
        (false, false) => 1,
        (true, true) => 2,
        (true, false) => 3,
    }
}

/// The device to draw with: the first of those that stand foremost.
pub fn choose_device(devices: &Vec<DeviceTraits>) -> (chosen: Option<usize>)
    ensures
        chosen is Some <==> devices@.len() > 0,
        chosen is Some ==> {
            let i = chosen->0 as int;
            &&& i < devices@.len()
            &&& forall|k: int|
                0 <= k < devices@.len() ==> device_rank(devices@[i]) <= device_rank(
                    #[trigger] devices@[k],
                )
            &&& forall|k: int|
                0 <= k < i ==> device_rank(devices@[i]) < device_rank(#[trigger] devices@[k])
        },
{
    if devices.len() == 0 {
        return None;
    }
    let mut best: usize = 0;
    let mut i: usize = 1;
    while i < devices.len()
        invariant
            best < i <= devices@.len(),
            forall|k: int|
                0 <= k < i ==> device_rank(devices@[best as int]) <= device_rank(
                    #[trigger] devices@[k],
                ),
            forall|k: int|
                0 <= k < best ==> device_rank(devices@[best as int]) < device_rank(
                    #[trigger] devices@[k],
                ),
        decreases devices@.len() - i,
    {
        if rank_of(devices[i]) < rank_of(devices[best]) {
            best = i;
        }
        i = i + 1;
    }
    Some(best)
}

} // verus!
