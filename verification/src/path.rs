//! Paths as they are built: triangles that fan out from the start of a contour, and
//! one more for every curve.
use vstd::prelude::*;

use crate::float_bits::{Float32, FLOAT32_HALF, FLOAT32_ONE};
use crate::geometry::{Bounds, ContentMask, Point};
use crate::primitive::{DrawOrder, PathId, ScenePath};

verus! {

/// A vertex of a path: where it is, and where it lies on the curve.
#[derive(Clone, Copy, Debug, PartialEq, Eq, Structural)]
pub struct PathVertex {
    pub xy_position: Point,
    pub st_position: Point,
    pub content_mask: ContentMask,
}

/// Three points.
#[derive(Clone, Copy, Debug, PartialEq, Eq, Structural)]
pub struct Triangle {
    pub a: Point,
    pub b: Point,
    pub c: Point,
}

/// A path.
#[derive(Debug)]
pub struct Path {
    pub id: PathId,
    pub order: DrawOrder,
    pub bounds: Bounds,
    pub content_mask: ContentMask,
    pub vertices: Vec<PathVertex>,
    /// Where the colour is kept.
    pub style: u64,
    pub start: Point,
    pub current: Point,
    pub contour_count: usize,
}

/// The contents of a path.
pub struct PathModel {
    pub bounds: Bounds,
    pub content_mask: ContentMask,
    pub vertices: Seq<PathVertex>,
    pub style: u64,
    pub start: Point,
    pub current: Point,
    pub contour_count: int,
}

/// A place on a curve.
pub open spec fn st(s: u32, t: u32) -> Point {
    Point { x: Float32 { bits: s }, y: Float32 { bits: t } }
}

fn st_point(s: u32, t: u32) -> (point: Point)
    ensures
        point == st(s, t),
{
    Point { x: Float32 { bits: s }, y: Float32 { bits: t } }
}

/// The places of a triangle that is filled as a whole.
pub open spec fn solid() -> Triangle {
    Triangle { a: st(0, FLOAT32_ONE), b: st(0, FLOAT32_ONE), c: st(0, FLOAT32_ONE) }
}

/// The places of a triangle that is filled up to its curve.
pub open spec fn curved() -> Triangle {
    Triangle { a: st(0, 0), b: st(FLOAT32_HALF, 0), c: st(FLOAT32_ONE, FLOAT32_ONE) }
}

/// A vertex that is not clipped.
pub open spec fn vertex(xy: Point, place: Point) -> PathVertex {
    PathVertex {
        xy_position: xy,
        st_position: place,
        content_mask: ContentMask { bounds: Bounds::spec_zero() },
    }
}

fn new_vertex(xy: Point, place: Point) -> (result: PathVertex)
    ensures
        result == vertex(xy, place),
{
    PathVertex {
        xy_position: xy,
        st_position: place,
        content_mask: ContentMask { bounds: Bounds::zero() },
    }
}

impl PathModel {
    /// With one more triangle, and bounds that reach around it.
    pub open spec fn with_triangle(self, xy: Triangle, places: Triangle) -> PathModel {
        PathModel {
            bounds: self.bounds.spec_union(Bounds::spec_at(xy.a)).spec_union(
                Bounds::spec_at(xy.b),
            ).spec_union(Bounds::spec_at(xy.c)),
            vertices: self.vertices.push(vertex(xy.a, places.a)).push(
                vertex(xy.b, places.b),
            ).push(vertex(xy.c, places.c)),
            ..self
        }
    }

    /// With one more segment, and from the second one on the triangle between it and
    /// the start of the contour.
    pub open spec fn with_segment(self, to: Point) -> PathModel {
        let counted = PathModel { contour_count: self.contour_count + 1, ..self };
        if counted.contour_count > 1 {
            counted.with_triangle(Triangle { a: self.start, b: self.current, c: to }, solid())
        } else {
            counted
        }
    }

    /// With a straight line from the current point.
    pub open spec fn with_line(self, to: Point) -> PathModel {
        PathModel { current: to, ..self.with_segment(to) }
    }

    /// With a curve from the current point, bent towards another point.
    pub open spec fn with_curve(self, to: Point, ctrl: Point) -> PathModel {
        PathModel {
            current: to,
            ..self.with_segment(to).with_triangle(
                Triangle { a: self.current, b: ctrl, c: to },
                curved(),
            )
        }
    }

    /// Three vertices make a triangle.
    pub open spec fn wf(self) -> bool {
        self.vertices.len() % 3 == 0
    }
}

impl Path {
    /// The contents.
    pub open spec fn view(&self) -> PathModel {
        PathModel {
            bounds: self.bounds,
            content_mask: self.content_mask,
            vertices: self.vertices@,
            style: self.style,
            start: self.start,
            current: self.current,
            contour_count: self.contour_count as int,
        }
    }

    /// A path that starts at a point.
    pub fn new(start: Point) -> (path: Path)
        ensures
            path@ == (PathModel {
                bounds: Bounds::spec_at(start),
                content_mask: ContentMask { bounds: Bounds::spec_zero() },
                vertices: Seq::empty(),
                style: 0,
                start,
                current: start,
                contour_count: 0,
            }),
            path.id == PathId(0),
            path.order == 0,
    {
        Path {
            id: PathId(0),
            order: 0,
            bounds: Bounds::at(start),
            content_mask: ContentMask { bounds: Bounds::zero() },
            vertices: Vec::new(),
            style: 0,
            start,
            current: start,
            contour_count: 0,
        }
    }

    /// Begins another contour at a point.
    pub fn move_to(&mut self, to: Point)
        requires
            old(self).contour_count < usize::MAX,
        ensures
            final(self)@ == (PathModel {
                start: to,
                current: to,
                contour_count: old(self)@.contour_count + 1,
                ..old(self)@
            }),
            final(self).id == old(self).id,
            final(self).order == old(self).order,
    {
        self.contour_count = self.contour_count + 1;
        self.start = to;
        self.current = to;
    }

    /// Draws a straight line from the current point.
    pub fn line_to(&mut self, to: Point)
        requires
            old(self).contour_count < usize::MAX,
        ensures
            final(self)@ == old(self)@.with_line(to),
            final(self).id == old(self).id,
            final(self).order == old(self).order,
    {
        self.contour_count = self.contour_count + 1;
        if self.contour_count > 1 {
            let flat: Point = st_point(0, FLOAT32_ONE);
            self.push_triangle(
                Triangle { a: self.start, b: self.current, c: to },
                Triangle { a: flat, b: flat, c: flat },
            );
        }
        self.current = to;
    }

    /// Draws a curve from the current point, bent towards a control point.
    pub fn curve_to(&mut self, to: Point, ctrl: Point)
        requires
            old(self).contour_count < usize::MAX,
        ensures
            final(self)@ == old(self)@.with_curve(to, ctrl),
            final(self).id == old(self).id,
            final(self).order == old(self).order,
    {
        self.contour_count = self.contour_count + 1;
        if self.contour_count > 1 {
            let flat: Point = st_point(0, FLOAT32_ONE);
            self.push_triangle(
                Triangle { a: self.start, b: self.current, c: to },
                Triangle { a: flat, b: flat, c: flat },
            );
        }
        self.push_triangle(
            Triangle { a: self.current, b: ctrl, c: to },
            Triangle {
                a: st_point(0, 0),
                b: st_point(FLOAT32_HALF, 0),
                c: st_point(FLOAT32_ONE, FLOAT32_ONE),
            },
        );
        self.current = to;
    }

    /// Adds a triangle: its points, and their places on a curve.
    pub fn push_triangle(&mut self, xy: Triangle, places: Triangle)
        ensures
            final(self)@ == old(self)@.with_triangle(xy, places),
            final(self).id == old(self).id,
            final(self).order == old(self).order,
    {
        self.bounds = self.bounds.union(Bounds::at(xy.a)).union(Bounds::at(xy.b)).union(
            Bounds::at(xy.c),
        );
        self.vertices.push(new_vertex(xy.a, places.a));
        self.vertices.push(new_vertex(xy.b, places.b));
        self.vertices.push(new_vertex(xy.c, places.c));
    }

    /// What is left of the path inside its content mask.
    pub fn clipped_bounds(&self) -> (bounds: Bounds)
        ensures
            bounds == self@.bounds.spec_intersect(self@.content_mask.bounds),
    {
        self.bounds.intersect(self.content_mask.bounds)
    }

    /// The path as a primitive of a scene, with its vertices kept elsewhere.
    pub fn primitive(&self, geometry: u64) -> (primitive: ScenePath)
        ensures
            primitive == (ScenePath {
                order: self.order,
                bounds: self.bounds,
                content_mask: self.content_mask,
                id: self.id,
                vertex_count: self.vertices@.len() as usize,
                contour_count: self.contour_count,
                start: self.start,
                current: self.current,
                geometry,
                style: self.style,
            }),
    {
        ScenePath {
            order: self.order,
            bounds: self.bounds,
            content_mask: self.content_mask,
            id: self.id,
            vertex_count: self.vertices.len(),
            contour_count: self.contour_count,
            start: self.start,
            current: self.current,
            geometry,
            style: self.style,
        }
    }
}

/// Building a path adds whole triangles, and never takes one away: drawing on keeps
/// the vertices in threes and what was drawn before.
pub proof fn drawing_adds_triangles(path: PathModel, to: Point, ctrl: Point)
    requires
        path.wf(),
    ensures
        path.with_line(to).wf(),
        path.with_curve(to, ctrl).wf(),
        path.vertices.is_prefix_of(path.with_line(to).vertices),
        path.vertices.is_prefix_of(path.with_curve(to, ctrl).vertices),
        path.with_line(to).current == to,
        path.with_curve(to, ctrl).current == to,
{
    assert(path.vertices.is_prefix_of(path.with_line(to).vertices)) by {
        assert(path.with_line(to).vertices.subrange(0, path.vertices.len() as int)
            =~= path.vertices);
    }
    assert(path.with_curve(to, ctrl).vertices.subrange(0, path.vertices.len() as int)
        =~= path.vertices);
}

/// The bounds of a path of finite points reach around every triangle that is added.
pub proof fn bounds_reach_around_triangles(path: PathModel, xy: Triangle, places: Triangle)
    requires
        path.bounds.finite(),
        Bounds::spec_at(xy.a).finite(),
        Bounds::spec_at(xy.b).finite(),
        Bounds::spec_at(xy.c).finite(),
    ensures
        path.with_triangle(xy, places).bounds.finite(),
        path.with_triangle(xy, places).bounds.encloses(path.bounds),
        path.with_triangle(xy, places).bounds.encloses(Bounds::spec_at(xy.a)),
        path.with_triangle(xy, places).bounds.encloses(Bounds::spec_at(xy.b)),
        path.with_triangle(xy, places).bounds.encloses(Bounds::spec_at(xy.c)),
{
    let first = path.bounds.spec_union(Bounds::spec_at(xy.a));
    crate::geometry::union_encloses_both(path.bounds, Bounds::spec_at(xy.a));
    let second = first.spec_union(Bounds::spec_at(xy.b));
    crate::geometry::union_encloses_both(first, Bounds::spec_at(xy.b));
    crate::geometry::union_encloses_both(second, Bounds::spec_at(xy.c));
}

} // verus!
