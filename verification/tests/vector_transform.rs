use raster_scene::float_bits::Float32;
use raster_scene::geometry::{Bounds, ContentMask, Point, Size};
use raster_scene::path::{Path, PathVertex};
use raster_scene::primitive::{
    BorderStyle, PaintOperation, PathId, Primitive, Quad, TransformationMatrix,
    TransformedGeometry, Underline,
};
use raster_scene::scene::Scene;

fn float(value: f32) -> Float32 {
    Float32::from_bits(value.to_bits())
}

fn value(number: Float32) -> f32 {
    f32::from_bits(number.bits)
}

fn scaled_point(x: f32, y: f32) -> Point {
    Point::new(float(x), float(y))
}

fn scaled_bounds(x: f32, y: f32, width: f32, height: f32) -> Bounds {
    Bounds {
        left: float(x),
        top: float(y),
        right: float(x + width),
        bottom: float(y + height),
        size: Some(Size { width: float(width), height: float(height) }),
    }
}

fn origin(bounds: Bounds) -> Point {
    Point::new(bounds.left, bounds.top)
}

/// A matrix in single precision.
#[derive(Clone, Copy, Debug, PartialEq)]
struct Matrix {
    rows: [[f32; 2]; 2],
    translation: [f32; 2],
}

const UNIT: Matrix = Matrix { rows: [[1., 0.], [0., 1.]], translation: [0., 0.] };

impl Matrix {
    fn translate(self, x: f32, y: f32) -> Self {
        self.compose(Matrix { rows: UNIT.rows, translation: [x, y] })
    }

    fn rotate(self, angle: f32) -> Self {
        self.compose(Matrix {
            rows: [[angle.cos(), -angle.sin()], [angle.sin(), angle.cos()]],
            translation: [0., 0.],
        })
    }

    fn scale(self, width: f32, height: f32) -> Self {
        self.compose(Matrix { rows: [[width, 0.], [0., height]], translation: [0., 0.] })
    }

    fn compose(self, other: Matrix) -> Matrix {
        if other == UNIT {
            return self;
        }
        let (a, b) = (self.rows, other.rows);
        let cell = |i: usize, k: usize| a[i][0] * b[0][k] + a[i][1] * b[1][k];
        let moved = |i: usize| {
            self.translation[i] + a[i][0] * other.translation[0] + a[i][1] * other.translation[1]
        };
        Matrix {
            rows: [[cell(0, 0), cell(0, 1)], [cell(1, 0), cell(1, 1)]],
            translation: [moved(0), moved(1)],
        }
    }

    fn apply(&self, x: f32, y: f32) -> (f32, f32) {
        let cell = |i: usize| self.translation[i] + self.rows[i][0] * x + self.rows[i][1] * y;
        (cell(0), cell(1))
    }

    fn conjugate(self, scale: f32, translation: (f32, f32)) -> Matrix {
        let global =
            Matrix { rows: [[scale, 0.], [0., scale]], translation: [translation.0, translation.1] };
        let inverse_scale = 1. / scale;
        let inverse = Matrix {
            rows: [[inverse_scale, 0.], [0., inverse_scale]],
            translation: [-translation.0 * inverse_scale, -translation.1 * inverse_scale],
        };
        global.compose(self).compose(inverse)
    }

    fn encoded(self) -> TransformationMatrix {
        TransformationMatrix {
            first_row: scaled_point(self.rows[0][0], self.rows[0][1]),
            second_row: scaled_point(self.rows[1][0], self.rows[1][1]),
            translation: scaled_point(self.translation[0], self.translation[1]),
        }
    }

    fn decoded(matrix: TransformationMatrix) -> Matrix {
        Matrix {
            rows: [
                [value(matrix.first_row.x), value(matrix.first_row.y)],
                [value(matrix.second_row.x), value(matrix.second_row.y)],
            ],
            translation: [value(matrix.translation.x), value(matrix.translation.y)],
        }
    }
}

/// The lengths of a shape besides its rectangle.
#[derive(Clone, Copy, Debug, Default)]
struct Lengths {
    corner_radii: [f32; 4],
    border_widths: [f32; 4],
    thickness: f32,
}

/// What scenes refer to: lengths of shapes and vertices of paths, and the transform that
/// operations are replayed under.
struct Replay {
    scale: f32,
    translation: (f32, f32),
    lengths: Vec<Lengths>,
    vertices: Vec<Vec<PathVertex>>,
}

impl Replay {
    fn point(&self, point: Point) -> Point {
        scaled_point(
            value(point.x) * self.scale + self.translation.0,
            value(point.y) * self.scale + self.translation.1,
        )
    }

    fn bounds(&self, bounds: Bounds) -> Bounds {
        let size = bounds.size.expect("the size was given");
        let moved = self.point(origin(bounds));
        scaled_bounds(
            value(moved.x),
            value(moved.y),
            value(size.width) * self.scale,
            value(size.height) * self.scale,
        )
    }

    fn style(&mut self, style: u64) -> u64 {
        let lengths = self.lengths[style as usize];
        self.lengths.push(Lengths {
            corner_radii: lengths.corner_radii.map(|radius| radius * self.scale),
            border_widths: lengths.border_widths.map(|width| width * self.scale),
            thickness: lengths.thickness * self.scale,
        });
        self.lengths.len() as u64 - 1
    }

    fn path(&mut self, geometry: u64) -> u64 {
        let moved = self.vertices[geometry as usize]
            .iter()
            .map(|vertex| PathVertex {
                xy_position: self.point(vertex.xy_position),
                st_position: vertex.st_position,
                content_mask: ContentMask { bounds: self.bounds(vertex.content_mask.bounds) },
            })
            .collect();
        self.vertices.push(moved);
        self.vertices.len() as u64 - 1
    }

    /// The geometry of an operation under the transform.
    fn geometry(&mut self, operation: &PaintOperation) -> TransformedGeometry {
        let nothing = scaled_bounds(0., 0., 0., 0.);
        let mut to = TransformedGeometry {
            bounds: nothing,
            content_mask: ContentMask { bounds: nothing },
            transformation: TransformationMatrix::unit(),
            area_device_px2: 0,
            start: scaled_point(0., 0.),
            current: scaled_point(0., 0.),
            geometry: 0,
            style: 0,
        };
        match operation {
            PaintOperation::StartLayer(bounds) => to.bounds = self.bounds(*bounds),
            PaintOperation::EndLayer => {}
            PaintOperation::Primitive(primitive) => {
                to.bounds = self.bounds(primitive.bounds());
                to.content_mask.bounds = self.bounds(primitive.content_mask().bounds);
                match primitive {
                    Primitive::Quad(quad) => {
                        to.transformation = Matrix::decoded(quad.transformation)
                            .conjugate(self.scale, self.translation)
                            .encoded();
                        to.style = self.style(quad.style);
                    }
                    Primitive::Path(path) => {
                        to.start = self.point(path.start);
                        to.current = self.point(path.current);
                        to.geometry = self.path(path.geometry);
                    }
                    Primitive::Underline(underline) => to.style = self.style(underline.style),
                    _ => panic!("no other primitive is replayed here"),
                }
            }
        }
        to
    }

    fn replay(&mut self, operations: &Vec<PaintOperation>) -> Scene {
        let geometry = operations.iter().map(|operation| self.geometry(operation)).collect();
        let mut replayed = Scene::default();
        replayed.replay_vector_transform(operations, &geometry);
        replayed
    }
}

fn quad(bounds: Bounds, content_mask: ContentMask, transformation: Matrix) -> Quad {
    Quad {
        order: 0,
        bounds,
        content_mask,
        border_style: BorderStyle::default(),
        transformation: transformation.encoded(),
        style: 0,
        clipped_area_device_px2: 0,
    }
}

fn path(mask: ContentMask) -> Path {
    Path {
        id: PathId(0),
        order: 0,
        bounds: scaled_bounds(2., 3., 8., 9.),
        content_mask: mask,
        vertices: vec![PathVertex {
            xy_position: scaled_point(4., 5.),
            st_position: scaled_point(0., 1.),
            content_mask: mask,
        }],
        style: 0,
        start: scaled_point(2., 3.),
        current: scaled_point(10., 12.),
        contour_count: 1,
    }
}

#[test]
fn vector_translation_moves_bounds_masks_and_existing_transformation_together() {
    let bounds = scaled_bounds(10., 20., 30., 40.);
    let content_mask = ContentMask { bounds: scaled_bounds(0., 0., 100., 100.) };
    let transformation = UNIT.translate(10., 20.).scale(2., 2.).translate(-10., -20.);
    let mut original = Scene::default();
    original.insert_primitive(quad(bounds, content_mask, transformation).into());
    let Some(operations) = original.clone_vector_paint(0, original.len()) else {
        panic!("quad must be supported");
    };

    let mut replay = Replay {
        scale: 1.,
        translation: (7., -3.),
        lengths: vec![Lengths::default()],
        vertices: Vec::new(),
    };
    let replayed = replay.replay(&operations);
    let translated = &replayed.quads[0];

    assert_eq!(origin(translated.bounds), scaled_point(17., 17.));
    assert_eq!(origin(translated.content_mask.bounds), scaled_point(7., -3.));
    let old_output = transformation.apply(12., 22.);
    let new_output = Matrix::decoded(translated.transformation).apply(19., 19.);
    assert_eq!(new_output, (old_output.0 + 7., old_output.1 - 3.));
}

#[test]
fn vector_translation_moves_every_path_coordinate() {
    let mask = ContentMask { bounds: scaled_bounds(0., 0., 100., 100.) };
    let path = path(mask);
    let mut original = Scene::default();
    original.insert_primitive(path.primitive(0).into());
    let Some(operations) = original.clone_vector_paint(0, original.len()) else {
        panic!("path must be supported");
    };

    let mut replay = Replay {
        scale: 1.,
        translation: (-2., 6.),
        lengths: vec![Lengths::default()],
        vertices: vec![path.vertices.clone()],
    };
    let replayed = replay.replay(&operations);
    let translated = &replayed.paths[0];

    assert_eq!(origin(translated.bounds), scaled_point(0., 9.));
    assert_eq!(translated.start, scaled_point(0., 9.));
    assert_eq!(translated.current, scaled_point(8., 18.));
    let vertices = &replay.vertices[translated.geometry as usize];
    assert_eq!(vertices[0].xy_position, scaled_point(2., 11.));
    assert_eq!(origin(vertices[0].content_mask.bounds), scaled_point(-2., 6.));
}

#[test]
fn vector_transform_scales_geometry_style_masks_and_existing_transformation() {
    let bounds = scaled_bounds(10., 20., 30., 40.);
    let content_mask = ContentMask { bounds: scaled_bounds(0., 0., 100., 100.) };
    let transformation = UNIT.translate(10., 20.).rotate(0.25).translate(-10., -20.);
    let mut original = Scene::default();
    original.insert_primitive(quad(bounds, content_mask, transformation).into());
    let Some(operations) = original.clone_vector_paint(0, original.len()) else {
        panic!("quad must be supported");
    };

    let scale = 1.5;
    let translation = (-7., 11.);
    let mut replay = Replay {
        scale,
        translation,
        lengths: vec![Lengths {
            corner_radii: [1., 2., 3., 4.],
            border_widths: [1., 2., 3., 4.],
            thickness: 0.,
        }],
        vertices: Vec::new(),
    };
    let replayed = replay.replay(&operations);
    let transformed = &replayed.quads[0];

    assert_eq!(transformed.bounds, scaled_bounds(8., 41., 45., 60.));
    assert_eq!(transformed.content_mask.bounds, scaled_bounds(-7., 11., 150., 150.));
    let lengths = replay.lengths[transformed.style as usize];
    assert_eq!(lengths.corner_radii[0], 1.5);
    assert_eq!(lengths.corner_radii[3], 6.);
    assert_eq!(lengths.border_widths[0], 1.5);
    assert_eq!(lengths.border_widths[3], 6.);

    let old_output = transformation.apply(12., 22.);
    let actual_output = Matrix::decoded(transformed.transformation)
        .apply(12. * scale + translation.0, 22. * scale + translation.1);
    let expected_output =
        (old_output.0 * scale + translation.0, old_output.1 * scale + translation.1);
    assert!((actual_output.0 - expected_output.0).abs() < 0.0001);
    assert!((actual_output.1 - expected_output.1).abs() < 0.0001);
}

#[test]
fn vector_transform_scales_path_and_underline_coordinates() {
    let mask = ContentMask { bounds: scaled_bounds(-10., -10., 100., 100.) };
    let path = path(mask);
    let mut original = Scene::default();
    original.insert_primitive(path.primitive(0).into());
    original.insert_primitive(
        Underline {
            order: 0,
            bounds: scaled_bounds(1., 2., 20., 3.),
            content_mask: mask,
            style: 0,
        }
        .into(),
    );
    let Some(operations) = original.clone_vector_paint(0, original.len()) else {
        panic!("path and underline must be supported");
    };

    let mut replay = Replay {
        scale: 2.,
        translation: (-3., 4.),
        lengths: vec![Lengths { thickness: 2., ..Lengths::default() }],
        vertices: vec![path.vertices.clone()],
    };
    let replayed = replay.replay(&operations);

    let path = &replayed.paths[0];
    assert_eq!(path.bounds, scaled_bounds(1., 10., 16., 18.));
    assert_eq!(path.start, scaled_point(1., 10.));
    assert_eq!(path.current, scaled_point(17., 28.));
    let vertices = &replay.vertices[path.geometry as usize];
    assert_eq!(vertices[0].xy_position, scaled_point(5., 14.));
    assert_eq!(vertices[0].content_mask.bounds, scaled_bounds(-23., -16., 200., 200.));
    let underline = &replayed.underlines[0];
    assert_eq!(underline.bounds, scaled_bounds(-1., 8., 40., 6.));
    assert_eq!(replay.lengths[underline.style as usize].thickness, 4.);
}

#[test]
fn layers_move_with_what_is_in_them() {
    let area = scaled_bounds(0., 0., 10., 10.);
    let mut original = Scene::default();
    original.push_layer(area);
    original.insert_primitive(quad(area, ContentMask { bounds: area }, UNIT).into());
    original.pop_layer();
    let operations = original.clone_vector_paint(0, 3).expect("layers are supported");
    let mut replay = Replay {
        scale: 3.,
        translation: (1., 2.),
        lengths: vec![Lengths::default()],
        vertices: Vec::new(),
    };
    let replayed = replay.replay(&operations);
    assert_eq!(
        replayed.paint_operations[0],
        PaintOperation::StartLayer(scaled_bounds(1., 2., 30., 30.))
    );
    assert_eq!(replayed.quads[0].bounds, scaled_bounds(1., 2., 30., 30.));
    assert_eq!(replayed.paint_operations[2], PaintOperation::EndLayer);
    assert!(replayed.layer_stack.is_empty());
}
