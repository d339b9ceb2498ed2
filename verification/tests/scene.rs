use raster_scene::batches::{BatchIterator, PrimitiveBatch};
use raster_scene::bounds_tree::BoundsTree;
use raster_scene::float_bits::{Float32, Float64};
use raster_scene::geometry::{Bounds, ContentMask, Point, Size};
use raster_scene::path::Path;
use raster_scene::primitive::{
    AtlasTextureId, AtlasTile, BorderStyle, MonochromeSprite, PaintOperation, PathId,
    PolychromeSprite, Primitive, PrimitiveKind, Quad, RasterTile, ScenePath, Shadow,
    TransformationMatrix, TransformedGeometry, Underline,
};
use raster_scene::raster_cache::RasterCacheOwners;
use raster_scene::scene::Scene;
use raster_scene::trace_event::{
    FrameTraceDisplayTick, FrameTraceEvent, FrameTraceEventKind, MachTimebase, PresentationToken,
    FLAG_DISPLAY_CURRENT_INVALID, FLAG_DISPLAY_REFRESH_INVALID, FLAG_DISPLAY_TARGET_INVALID,
};

const TICKS: MachTimebase = MachTimebase { numer: 1, denom: 1 };

fn float(value: f32) -> Float32 {
    Float32::from_bits(value.to_bits())
}

fn point(x: f32, y: f32) -> Point {
    Point::new(float(x), float(y))
}

fn scaled_bounds(x: f32, y: f32, width: f32, height: f32) -> Bounds {
    Bounds {
        left: float(x),
        top: float(y),
        right: float(x + width),
        bottom: float(y + height),
        size: Some(Size { width: float(width), height: float(height) }),
    }
}

/// A rectangle between edges, whose size was not given.
fn between(left: f32, top: f32, right: f32, bottom: f32) -> Bounds {
    Bounds {
        left: float(left),
        top: float(top),
        right: float(right),
        bottom: float(bottom),
        size: None,
    }
}

fn mask(bounds: Bounds) -> ContentMask {
    ContentMask { bounds }
}

fn quad(bounds: Bounds) -> Quad {
    Quad {
        order: 0,
        bounds,
        content_mask: mask(bounds),
        border_style: BorderStyle::default(),
        transformation: TransformationMatrix::unit(),
        style: 0,
        clipped_area_device_px2: 0,
    }
}

fn shadow(bounds: Bounds, area: u64) -> Shadow {
    Shadow {
        order: 0,
        bounds,
        content_mask: mask(bounds),
        transformation: TransformationMatrix::unit(),
        style: 0,
        expanded_area_device_px2: area,
    }
}

fn tile(bounds: Bounds) -> RasterTile {
    RasterTile {
        order: 0,
        bounds,
        content_mask: mask(bounds),
        cache_id: 1,
        key: 2,
        revision: 3,
        gutter: 0,
    }
}

fn sprite(bounds: Bounds, texture: u32, tile_id: u32) -> MonochromeSprite {
    MonochromeSprite {
        order: 0,
        bounds,
        content_mask: mask(bounds),
        tile: AtlasTile { texture_id: AtlasTextureId { index: texture, kind: 0 }, tile_id },
        transformation: TransformationMatrix::unit(),
        style: 0,
    }
}

fn picture(bounds: Bounds) -> PolychromeSprite {
    PolychromeSprite {
        order: 0,
        bounds,
        content_mask: mask(bounds),
        tile: AtlasTile { texture_id: AtlasTextureId { index: 9, kind: 1 }, tile_id: 1 },
        transformation: TransformationMatrix::unit(),
        style: 0,
    }
}

fn scene_path(bounds: Bounds, contour_count: usize) -> ScenePath {
    ScenePath {
        order: 0,
        bounds,
        content_mask: mask(bounds),
        id: PathId(77),
        vertex_count: 6,
        contour_count,
        start: point(1., 2.),
        current: point(3., 4.),
        geometry: 1,
        style: 2,
    }
}

fn summary(batches: &[PrimitiveBatch]) -> Vec<(PrimitiveKind, usize, usize)> {
    batches.iter().map(|batch| (batch.kind, batch.start, batch.end)).collect()
}

fn frame_trace_tick(display_id: u32, sequence: u64, coalesced_count: u64) -> FrameTraceDisplayTick {
    FrameTraceDisplayTick {
        display_id,
        sequence,
        worker_callback_time_ns: sequence * 10,
        current_host_time_raw: sequence * 100,
        output_host_time_raw: sequence * 100 + 50,
        video_refresh_period: 1,
        video_time_scale: 60,
        rate_scalar: Float64::from_bits(1.0f64.to_bits()),
        refresh_period_ns: 16_666_667,
        main_queue_delivery_time_ns: sequence * 10 + 1,
        coalesced_count,
        flags: 0,
    }
}

#[test]
fn vector_capture_rejects_raster_tiles_atomically() {
    let mut scene = Scene::default();
    scene.insert_primitive(tile(scaled_bounds(0., 0., 10., 10.)).into());

    assert!(scene.clone_vector_paint(0, scene.len()).is_none());
}

#[test]
fn frame_trace_dirty_draw_and_two_display_reuse_keep_exact_ticks() {
    let mut build_tick = frame_trace_tick(1, 10, 1);
    build_tick.flags = FLAG_DISPLAY_TARGET_INVALID;
    let first_presentation_tick = frame_trace_tick(1, 11, 1);
    let second_presentation_tick = frame_trace_tick(2, 12, 1);
    let token = PresentationToken {
        run_id_hash: 7,
        input_sequence: 8,
        snapshot_generation: 9,
        canvas_render_generation: 10,
    };
    let mut scene = Scene::default();
    scene.set_frame_trace_correlation(3, 8, Some(build_tick));
    scene.set_frame_trace_presentation_token(token);
    let mut area = quad(scaled_bounds(0., 0., 10., 20.));
    area.clipped_area_device_px2 = 200;
    scene.insert_primitive(area.into());

    scene.set_frame_trace_presentation_attempt(20, Some(first_presentation_tick));
    let mut first = FrameTraceEvent::now(FrameTraceEventKind::CommandBufferSubmitted, 1);
    scene.populate_frame_trace_event(&mut first, TICKS);
    scene.set_frame_trace_presentation_attempt(21, Some(second_presentation_tick));
    let mut reused = FrameTraceEvent::now(FrameTraceEventKind::CommandBufferSubmitted, 2);
    scene.populate_frame_trace_event(&mut reused, TICKS);

    assert_eq!(first.presentation_token, Some(token));
    assert_eq!(reused.presentation_token, Some(token));
    assert_eq!(first.scene_build_display_tick_sequence, 10);
    assert_eq!(reused.scene_build_display_tick_sequence, 10);
    assert_eq!(first.presentation_display_tick_sequence, 11);
    assert_eq!(reused.presentation_display_tick_sequence, 12);
    assert_eq!(first.gpui_window_frame_id, 20);
    assert_eq!(reused.gpui_window_frame_id, 21);
    assert_eq!(first.display_id, 1);
    assert_eq!(reused.display_id, 2);
    assert_eq!(reused.scene_build_tick_flags, FLAG_DISPLAY_TARGET_INVALID);
    assert_eq!(reused.presentation_tick_flags, 0);
    assert_ne!(reused.flags & FLAG_DISPLAY_TARGET_INVALID, 0);
    assert_eq!(reused.quad_count, 1);
    assert_eq!(reused.quad_area_device_px2, 200);
}

#[test]
fn frame_trace_hold_counts_only_distinct_non_coalesced_ticks() {
    let mut scene = Scene::default();
    scene.set_frame_trace_diagnostic_hold_ticks(2);

    scene.set_frame_trace_presentation_attempt(1, Some(frame_trace_tick(1, 10, 2)));
    assert!(scene.take_frame_trace_diagnostic_hold());
    scene.set_frame_trace_presentation_attempt(2, Some(frame_trace_tick(1, 11, 1)));
    assert!(scene.take_frame_trace_diagnostic_hold());
    scene.set_frame_trace_presentation_attempt(3, Some(frame_trace_tick(1, 11, 1)));
    assert!(scene.take_frame_trace_diagnostic_hold());
    scene.set_frame_trace_presentation_attempt(4, Some(frame_trace_tick(1, 12, 1)));
    assert!(scene.take_frame_trace_diagnostic_hold());
    scene.set_frame_trace_presentation_attempt(5, Some(frame_trace_tick(1, 13, 1)));
    assert!(!scene.take_frame_trace_diagnostic_hold());
}

#[test]
fn frame_trace_invalid_display_fields_never_reuse_raw_values_as_valid_times() {
    let mut tick = frame_trace_tick(7, 20, 1);
    tick.flags =
        FLAG_DISPLAY_CURRENT_INVALID | FLAG_DISPLAY_TARGET_INVALID | FLAG_DISPLAY_REFRESH_INVALID;
    let mut scene = Scene::default();
    scene.set_frame_trace_correlation(1, 2, Some(tick));
    scene.set_frame_trace_presentation_attempt(3, Some(tick));
    let mut event = FrameTraceEvent::now(FrameTraceEventKind::CommandBufferSubmitted, 1);
    scene.populate_frame_trace_event(&mut event, TICKS);

    assert_eq!(event.display_current_time_ns, 0);
    assert_eq!(event.presentation_target_display_time_ns, 0);
    assert_eq!(event.display_refresh_period_ns, 0);
    assert_eq!(event.display_current_host_time_raw, tick.current_host_time_raw);
    assert_eq!(event.display_output_host_time_raw, tick.output_host_time_raw);
    assert_eq!(event.flags & tick.flags, tick.flags);
}

#[test]
fn a_scene_without_ticks_is_traced_as_invalid() {
    let scene = Scene::default();
    let mut event = FrameTraceEvent::now(FrameTraceEventKind::CommandBufferSubmitted, 1);
    scene.populate_frame_trace_event(&mut event, TICKS);
    let missing =
        FLAG_DISPLAY_CURRENT_INVALID | FLAG_DISPLAY_TARGET_INVALID | FLAG_DISPLAY_REFRESH_INVALID;
    assert_eq!(event.scene_build_tick_flags, missing);
    assert_eq!(event.presentation_tick_flags, missing);
    assert_eq!(event.flags, missing);
}

#[test]
fn valid_ticks_are_traced_in_nanoseconds() {
    let mut scene = Scene::default();
    scene.set_frame_trace_correlation(1, 2, Some(frame_trace_tick(7, 10, 1)));
    scene.set_frame_trace_presentation_attempt(3, Some(frame_trace_tick(7, 20, 4)));
    let mut event = FrameTraceEvent::now(FrameTraceEventKind::CommandBufferSubmitted, 1);
    scene.populate_frame_trace_event(&mut event, MachTimebase { numer: 3, denom: 1 });
    assert_eq!(event.scene_build_target_display_time_ns, 3 * 1_050);
    assert_eq!(event.display_current_time_ns, 3 * 2_000);
    assert_eq!(event.presentation_target_display_time_ns, 3 * 2_050);
    assert_eq!(event.display_refresh_period_ns, 16_666_667);
    assert_eq!(event.coalesced_display_tick_count, 4);
    assert_eq!(event.flags, 0);
}

#[test]
fn overlapping_bounds_are_ordered_one_above_the_other() {
    let mut tree = BoundsTree::new();
    assert_eq!(tree.insert(scaled_bounds(0., 0., 10., 10.)), 1);
    assert_eq!(tree.insert(scaled_bounds(20., 0., 10., 10.)), 1);
    assert_eq!(tree.insert(scaled_bounds(5., 5., 20., 10.)), 2);
    assert_eq!(tree.insert(scaled_bounds(10., 0., 5., 5.)), 1);
    assert_eq!(tree.insert(scaled_bounds(0., 0., 30., 30.)), 3);
    tree.clear();
    assert_eq!(tree.insert(scaled_bounds(0., 0., 30., 30.)), 1);
}

#[test]
fn clipped_primitives_leave_no_trace() {
    let mut scene = Scene::default();
    let mut hidden = quad(scaled_bounds(0., 0., 10., 10.));
    hidden.content_mask = mask(scaled_bounds(10., 0., 5., 5.));
    scene.insert_primitive(hidden.into());
    assert_eq!(scene.len(), 0);
    assert_eq!(scene.quads.len(), 0);
    assert_eq!(scene.trace.summary.quad_count, 0);
    let mut infinite = quad(scaled_bounds(0., 0., 10., 10.));
    infinite.bounds.left = float(f32::INFINITY);
    infinite.bounds.right = float(f32::INFINITY);
    infinite.content_mask = mask(infinite.bounds);
    scene.insert_primitive(infinite.into());
    // The width of such a rectangle is no number, and no number is not too small.
    assert_eq!(scene.quads.len(), 1);
}

#[test]
fn primitives_are_summed_up() {
    let area = scaled_bounds(0., 0., 10., 10.);
    let mut scene = Scene::default();
    scene.insert_primitive(shadow(area, u64::MAX - 1).into());
    scene.insert_primitive(shadow(area, 5).into());
    scene.insert_primitive(scene_path(area, 4).into());
    scene.insert_primitive(scene_path(area, 3).into());
    scene.insert_primitive(sprite(area, 1, 1).into());
    scene.insert_primitive(picture(area).into());
    scene.insert_primitive(tile(area).into());
    let sums = scene.trace.summary;
    assert_eq!(sums.shadow_count, 2);
    assert_eq!(sums.shadow_expanded_area_device_px2, u64::MAX);
    assert_eq!(sums.path_count, 2);
    assert_eq!(sums.path_segment_count, 7);
    assert_eq!(sums.sprite_count, 2);
    assert_eq!(sums.surface_count, 0);
    assert_eq!(scene.paths[0].id, PathId(0));
    assert_eq!(scene.paths[1].id, PathId(1));
    scene.clear(&mut RasterCacheOwners::new());
    assert_eq!(scene.len(), 0);
    assert_eq!(scene.trace.summary.path_count, 0);
    assert!(scene.paths.is_empty());
}

#[test]
fn a_layer_gives_its_order_to_what_is_inside() {
    let mut scene = Scene::default();
    let area = scaled_bounds(0., 0., 10., 10.);
    scene.insert_primitive(quad(area).into());
    scene.push_layer(scaled_bounds(0., 0., 50., 50.));
    scene.insert_primitive(quad(area).into());
    scene.insert_primitive(quad(area).into());
    scene.pop_layer();
    scene.pop_layer();
    scene.insert_primitive(quad(area).into());
    let orders: Vec<u32> = scene.quads.iter().map(|quad| quad.order).collect();
    assert_eq!(orders, vec![1, 2, 2, 3]);
    assert_eq!(scene.len(), 7);
}

#[test]
fn a_replay_paints_the_same_again() {
    let mut scene = Scene::default();
    scene.insert_primitive(quad(scaled_bounds(0., 0., 10., 10.)).into());
    scene.push_layer(scaled_bounds(0., 0., 50., 50.));
    scene.insert_primitive(sprite(scaled_bounds(5., 5., 10., 10.), 3, 4).into());
    scene.pop_layer();
    scene.insert_primitive(quad(scaled_bounds(2., 2., 10., 10.)).into());
    let mut again = Scene::default();
    again.replay(0, scene.len(), &scene);
    assert_eq!(again.paint_operations, scene.paint_operations);
    assert_eq!(again.quads, scene.quads);
    assert_eq!(again.monochrome_sprites, scene.monochrome_sprites);
    assert_eq!(again.trace.summary, scene.trace.summary);
    let mut part = Scene::default();
    part.replay(4, 5, &scene);
    assert_eq!(part.quads.len(), 1);
    assert_eq!(part.quads[0].order, 1);
}

#[test]
fn vector_paint_is_captured_as_a_whole() {
    let area = scaled_bounds(0., 0., 10., 10.);
    let mut scene = Scene::default();
    scene.insert_primitive(quad(area).into());
    scene.push_layer(area);
    scene.pop_layer();
    let captured = scene.clone_vector_paint(0, 3).unwrap();
    assert_eq!(captured, scene.paint_operations);
    scene.insert_primitive(tile(area).into());
    assert!(scene.clone_vector_paint(0, 4).is_none());
    assert!(scene.clone_vector_paint(0, 3).is_some());
    let to = TransformedGeometry {
        bounds: scaled_bounds(100., 0., 20., 20.),
        content_mask: mask(scaled_bounds(100., 0., 20., 20.)),
        transformation: TransformationMatrix::unit(),
        area_device_px2: 400,
        start: point(0., 0.),
        current: point(0., 0.),
        geometry: 0,
        style: 8,
    };
    let mut replayed = Scene::default();
    replayed.replay_vector_transform(&captured, &vec![to; 3]);
    assert_eq!(replayed.quads[0].bounds, scaled_bounds(100., 0., 20., 20.));
    assert_eq!(replayed.quads[0].style, 8);
    assert_eq!(replayed.trace.summary.quad_area_device_px2, 400);
}

#[test]
fn a_transformed_primitive_shows_the_same() {
    let area = scaled_bounds(0., 0., 10., 10.);
    let to = TransformedGeometry {
        bounds: scaled_bounds(1., 2., 3., 4.),
        content_mask: mask(scaled_bounds(5., 6., 7., 8.)),
        transformation: TransformationMatrix {
            first_row: point(2., 0.),
            second_row: point(0., 2.),
            translation: point(1., 1.),
        },
        area_device_px2: 12,
        start: point(11., 12.),
        current: point(13., 14.),
        geometry: 44,
        style: 55,
    };
    match Primitive::from(scene_path(area, 2)).transformed(to) {
        Primitive::Path(path) => {
            assert_eq!((path.start, path.current), (point(11., 12.), point(13., 14.)));
            assert_eq!((path.geometry, path.style, path.contour_count), (44, 2, 2));
        }
        _ => panic!("a path stays a path"),
    }
    let moved = Primitive::from(sprite(area, 3, 4)).transformed(to);
    match moved {
        Primitive::MonochromeSprite(sprite) => {
            assert_eq!(sprite.tile.tile_id, 4);
            assert_eq!(sprite.style, 0);
            assert_eq!(sprite.transformation, to.transformation);
        }
        _ => panic!("the sort of a primitive stays"),
    }
    match Primitive::from(scene_path(area, 3)).transformed(to) {
        Primitive::Path(path) => {
            assert_eq!(path.geometry, 44);
            assert_eq!(path.style, 2);
            assert_eq!(path.contour_count, 3);
            assert_eq!(path.bounds, to.bounds);
        }
        _ => panic!("the sort of a primitive stays"),
    }
    match Primitive::from(tile(area)).transformed(to) {
        Primitive::RasterTile(tile) => {
            assert_eq!((tile.cache_id, tile.key, tile.revision), (1, 2, 3));
            assert_eq!(tile.content_mask, to.content_mask);
        }
        _ => panic!("the sort of a primitive stays"),
    }
}

#[test]
fn cached_text_is_layers_and_sprites() {
    let area = scaled_bounds(0., 0., 10., 10.);
    let mut scene = Scene::default();
    scene.push_layer(area);
    scene.insert_primitive(sprite(area, 1, 1).into());
    scene.pop_layer();
    let text = scene.clone_text_paint(0, 3).unwrap();
    assert_eq!(text.len(), 3);
    scene.insert_primitive(quad(area).into());
    assert!(scene.clone_text_paint(0, 4).is_none());

    let turned = TransformationMatrix {
        first_row: point(0., 1.),
        second_row: point(1., 0.),
        translation: point(0., 0.),
    };
    let mut shown = Scene::default();
    let place = scaled_bounds(1., 0., 10., 10.);
    let places = vec![place; 3];
    shown.replay_cached_text(&text, &places, mask(scaled_bounds(5., 5., 10., 10.)), turned);
    assert_eq!(shown.len(), 0);
    assert_eq!(shown.monochrome_sprites[0].bounds, place);
    assert_eq!(shown.primitive_bounds.entries[0].bounds, between(5., 5., 11., 10.));
    assert_eq!(shown.monochrome_sprites.len(), 1);
    assert_eq!(shown.monochrome_sprites[0].order, 1);
    assert_eq!(shown.monochrome_sprites[0].transformation, turned);
    assert_eq!(shown.monochrome_sprites[0].content_mask.bounds, scaled_bounds(5., 5., 10., 10.));

    let mut clipped = Scene::default();
    clipped.replay_cached_text(&text, &places, mask(scaled_bounds(50., 50., 10., 10.)), turned);
    assert_eq!(clipped.monochrome_sprites[0].order, u32::MAX);
    // What is ordered behind everything is not drawn.
    clipped.finish();
    assert!(clipped.batches().is_empty());
}

#[test]
fn finishing_sorts_stably() {
    let area = scaled_bounds(0., 0., 10., 10.);
    let mut scene = Scene::default();
    for (index, order) in [3u32, 1, 3, 2, 1].into_iter().enumerate() {
        let mut item = quad(area);
        item.order = order;
        item.style = index as u64;
        scene.quads.push(item);
        let mut glyph = sprite(area, 0, 10 - index as u32);
        glyph.order = order;
        scene.monochrome_sprites.push(glyph);
    }
    scene.finish();
    let quads: Vec<(u32, u64)> = scene.quads.iter().map(|quad| (quad.order, quad.style)).collect();
    assert_eq!(quads, vec![(1, 1), (1, 4), (2, 3), (3, 0), (3, 2)]);
    let glyphs: Vec<(u32, u32)> = scene
        .monochrome_sprites
        .iter()
        .map(|sprite| (sprite.order, sprite.tile.tile_id))
        .collect();
    assert_eq!(glyphs, vec![(1, 6), (1, 9), (2, 7), (3, 8), (3, 10)]);
    let before = scene.quads.clone();
    scene.finish();
    assert_eq!(scene.quads, before);
}

#[test]
fn batches_follow_order_and_sort() {
    let area = scaled_bounds(0., 0., 10., 10.);
    let mut scene = Scene::default();
    scene.insert_primitive(quad(area).into());
    scene.insert_primitive(shadow(area, 0).into());
    scene.insert_primitive(quad(area).into());
    scene.insert_primitive(quad(area).into());
    scene.insert_primitive(sprite(area, 1, 5).into());
    scene.insert_primitive(sprite(area, 2, 6).into());
    scene.insert_primitive(
        Underline { order: 0, bounds: area, content_mask: mask(area), style: 0 }.into(),
    );
    scene.finish();
    assert_eq!(
        summary(&scene.batches()),
        vec![
            (PrimitiveKind::Quad, 0, 1),
            (PrimitiveKind::Shadow, 0, 1),
            (PrimitiveKind::Quad, 1, 3),
            (PrimitiveKind::MonochromeSprite, 0, 1),
            (PrimitiveKind::MonochromeSprite, 1, 2),
            (PrimitiveKind::Underline, 0, 1),
        ]
    );
    assert_eq!(
        scene.batches()[3].texture_id,
        Some(AtlasTextureId { index: 1, kind: 0 })
    );
    let mut walk = BatchIterator { scene: &scene, starts: vec![0, 1, 0, 0, 0, 0, 0, 0] };
    let first = walk.next().unwrap();
    assert_eq!((first.kind, first.start, first.end), (PrimitiveKind::Shadow, 0, 1));
}

#[test]
fn one_order_is_drawn_by_sort() {
    let mut scene = Scene::default();
    scene.push_layer(scaled_bounds(0., 0., 100., 100.));
    let area = scaled_bounds(0., 0., 10., 10.);
    scene.insert_primitive(tile(area).into());
    scene.insert_primitive(picture(area).into());
    scene.insert_primitive(scene_path(area, 1).into());
    scene.insert_primitive(quad(area).into());
    scene.insert_primitive(shadow(area, 0).into());
    scene.insert_primitive(quad(area).into());
    scene.pop_layer();
    scene.finish();
    let kinds: Vec<PrimitiveKind> = scene.batches().iter().map(|batch| batch.kind).collect();
    assert_eq!(
        kinds,
        vec![
            PrimitiveKind::Shadow,
            PrimitiveKind::Quad,
            PrimitiveKind::Path,
            PrimitiveKind::PolychromeSprite,
            PrimitiveKind::RasterTile,
        ]
    );
}

#[test]
fn items_of_the_last_order_end_the_batches() {
    let area = scaled_bounds(0., 0., 10., 10.);
    let mut scene = Scene::default();
    let mut last_quad = quad(area);
    last_quad.order = u32::MAX;
    scene.quads.push(last_quad);
    assert!(scene.batches().is_empty());
    let mut last_shadow = shadow(area, 0);
    last_shadow.order = u32::MAX;
    scene.shadows.push(last_shadow);
    assert_eq!(summary(&scene.batches()), vec![(PrimitiveKind::Shadow, 0, 1)]);
}

#[test]
fn a_path_is_a_fan_of_triangles() {
    let mut path = Path::new(point(0., 0.));
    path.line_to(point(10., 0.));
    assert_eq!(path.vertices.len(), 0);
    path.line_to(point(10., 10.));
    assert_eq!(path.vertices.len(), 3);
    assert_eq!(path.vertices[0].xy_position, point(0., 0.));
    assert_eq!(path.vertices[1].xy_position, point(10., 0.));
    assert_eq!(path.vertices[2].xy_position, point(10., 10.));
    assert_eq!(path.vertices[2].st_position, point(0., 1.));
    path.curve_to(point(-5., 20.), point(0., 15.));
    assert_eq!(path.vertices.len(), 9);
    assert_eq!(path.vertices[6].st_position, point(0., 0.));
    assert_eq!(path.vertices[7].st_position, point(0.5, 0.));
    assert_eq!(path.vertices[7].xy_position, point(0., 15.));
    assert_eq!(path.vertices[8].st_position, point(1., 1.));
    assert_eq!(path.bounds, between(-5., 0., 10., 20.));
    path.move_to(point(1., 1.));
    assert_eq!(path.contour_count, 4);
    assert_eq!(path.start, point(1., 1.));
    path.content_mask = mask(scaled_bounds(0., 0., 5., 5.));
    assert_eq!(path.clipped_bounds(), between(0., 0., 5., 5.));
    let primitive = path.primitive(6);
    assert_eq!((primitive.start, primitive.current), (point(1., 1.), point(1., 1.)));
    assert_eq!(primitive.vertex_count, 9);
    assert_eq!(primitive.geometry, 6);
}

#[test]
fn the_first_curve_has_one_triangle() {
    let mut path = Path::new(point(0., 0.));
    path.curve_to(point(4., 0.), point(2., 2.));
    assert_eq!(path.vertices.len(), 3);
    assert_eq!(path.current, point(4., 0.));
    assert_eq!(path.contour_count, 1);
}

#[test]
fn rectangles_meet_and_join() {
    let a = scaled_bounds(0., 0., 10., 10.);
    let b = scaled_bounds(5., -5., 10., 10.);
    assert_eq!(a.intersect(b), between(5., 0., 10., 5.));
    assert_eq!(a.union(b), between(0., -5., 15., 10.));
    assert!(a.intersects(b));
    assert!(!a.intersects(scaled_bounds(10., 0., 5., 5.)));
    assert!(a.intersect(scaled_bounds(10., 0., 5., 5.)).is_empty());
    assert!(!a.is_empty());
    assert!(scaled_bounds(0., 0., -1., 5.).is_empty());
    // A width that is lost in the sum of the edges is a width nevertheless.
    assert!(!scaled_bounds(1e8, 0., 1., 1.).is_empty());
    assert!(between(1e8, 0., 1e8 + 1., 1.).is_empty());
    let unknown = Bounds { left: float(f32::NAN), size: None, ..a };
    assert!(!unknown.is_empty());
    assert!(!unknown.intersects(a));
}

#[test]
fn encoded_numbers_compare_as_numbers() {
    let values = [
        f32::NEG_INFINITY,
        -f32::MAX,
        -1.5,
        -f32::MIN_POSITIVE,
        -1e-45,
        -0.0,
        0.0,
        1e-45,
        1.0,
        1.5,
        f32::MAX,
        f32::INFINITY,
        f32::NAN,
    ];
    for a in values {
        assert_eq!(float(a).is_finite(), a.is_finite());
        assert_eq!(float(a).is_nan(), a.is_nan());
        assert_eq!(float(a).is_positive_finite(), a.is_finite() && a > 0.0);
        for b in values {
            assert_eq!(float(a).is_less(float(b)), a < b);
            assert_eq!(float(a).is_at_most(float(b)), a <= b);
            assert_eq!(float(a).is_equal(float(b)), a == b);
            assert_eq!(float(a).is_not_above(float(b)), a - b <= 0.0);
        }
    }
    for rate in [0.0f64, -1.0, 1.0, f64::INFINITY, f64::NAN, 5e-324] {
        assert_eq!(
            Float64::from_bits(rate.to_bits()).is_positive_finite(),
            rate.is_finite() && rate > 0.0
        );
    }
}
