use raster_scene::compositor_transform::RasterCompositorTransform;
use raster_scene::float_bits::Float32;
use raster_scene::geometry::{Bounds, ContentMask, DeviceSize, Point, Rectangle, Size};
use raster_scene::primitive::{BorderStyle, Quad, TransformationMatrix};
use raster_scene::raster_cache::{
    RasterCacheConfig, RasterCacheHandle, RasterCacheOwners, RasterTileKey, RasterTileMiss,
    RasterTileRevision,
};
use raster_scene::raster_elements::{
    cached_raster_tile, raster_compositor_surface, rasterize_tile, rasterize_tile_shadow,
    rasterize_tiles, rasterize_tiles_deferred, rasterize_tiles_shadow, CapturePlace, TileCapture,
};
use raster_scene::scene::Scene;
use raster_scene::vector_scene_cache::{
    cached_vector_scene_transform, cached_vector_scene_translation, prepaint_is_safe, FrameCounts,
    VectorSceneCacheHandle, VectorSceneCoverage, VectorSceneCaches, VectorScenePrepaintState,
    VectorSceneRevision, VectorSceneState, VectorSceneTransform,
};

fn float(value: f32) -> Float32 {
    Float32::from_bits(value.to_bits())
}

fn point(x: f32, y: f32) -> Point {
    Point::new(float(x), float(y))
}

fn rect(x: f32, y: f32, width: f32, height: f32) -> Bounds {
    Bounds {
        left: float(x),
        top: float(y),
        right: float(x + width),
        bottom: float(y + height),
        size: Some(Size { width: float(width), height: float(height) }),
    }
}

/// A rectangle between edges, whose size was not given.
fn between(left: f32, top: f32, right: f32, bottom: f32) -> Bounds {
    Bounds {
        left: float(left),
        top: float(top),
        right: float(right),
        bottom: float(bottom),
        size: None,
    }
}

fn rectangle(x: f32, y: f32, width: f32, height: f32) -> Rectangle {
    Rectangle {
        origin: Point::new(float(x), float(y)),
        size: Size { width: float(width), height: float(height) },
    }
}

fn quad() -> Quad {
    Quad {
        order: 0,
        bounds: rect(0., 0., 10., 10.),
        content_mask: ContentMask { bounds: rect(0., 0., 10., 10.) },
        border_style: BorderStyle::Solid,
        transformation: TransformationMatrix::default(),
        style: 0,
        clipped_area_device_px2: 0,
    }
}

fn new_cache(owners: &mut RasterCacheOwners) -> RasterCacheHandle {
    RasterCacheHandle::new(owners, RasterCacheConfig::default())
}

fn miss(owners: &mut RasterCacheOwners, cache: &RasterCacheHandle, key: u64) -> RasterTileMiss {
    cache.tile_miss(owners, RasterTileKey::new(key), RasterTileRevision::new(5))
}

const COUNTS: FrameCounts = FrameCounts {
    hitboxes: 1,
    deferred_draws: 2,
    mouse_listeners: 3,
    input_handlers: 4,
    cursor_styles: 5,
};

/// The quotient and difference of two transforms, in single precision.
fn computed(current: (f32, f32, f32), captured: (f32, f32, f32)) -> VectorSceneTransform {
    let scale = current.0 / captured.0;
    VectorSceneTransform::new(
        float(scale),
        point(current.1 - captured.1 * scale, current.2 - captured.2 * scale),
    )
}

#[test]
fn coverage_uses_inclusive_outer_edges() {
    let coverage = VectorSceneCoverage(rect(-100., -50., 300., 200.));
    assert!(coverage.contains(rect(-100., -50., 300., 200.)));
    assert!(!coverage.contains(rect(-101., -50., 300., 200.)));
}

#[test]
fn relative_transform_maps_captured_screen_coordinates_to_current_ones() {
    let captured = VectorSceneTransform::new(float(0.5), point(20., -10.));
    let current = VectorSceneTransform::new(float(0.8), point(-5., 30.));
    let relative = current
        .relative_to(captured, computed((0.8, -5., 30.), (0.5, 20., -10.)))
        .expect("valid transform");

    assert!((f32::from_bits(relative.scale.bits) - 1.6).abs() < f32::EPSILON);
    assert!((f32::from_bits(relative.translation.x.bits) + 37.0).abs() < f32::EPSILON);
    assert!((f32::from_bits(relative.translation.y.bits) - 46.0).abs() < f32::EPSILON);
}

#[test]
fn invalid_transform_cannot_be_replayed() {
    let valid = VectorSceneTransform::default();
    assert!(VectorSceneTransform::new(float(0.0), point(0., 0.))
        .relative_to(valid, computed((0., 0., 0.), (1., 0., 0.)))
        .is_none());
    assert!(VectorSceneTransform::new(float(1.0), point(f32::NAN, 0.))
        .relative_to(valid, computed((1., f32::NAN, 0.), (1., 0., 0.)))
        .is_none());
    // Two valid transforms whose quotient is none.
    let tiny = VectorSceneTransform::new(float(f32::MIN_POSITIVE), point(0., 0.));
    let huge = VectorSceneTransform::new(float(f32::MAX), point(0., 0.));
    assert!(huge
        .relative_to(tiny, computed((f32::MAX, 0., 0.), (f32::MIN_POSITIVE, 0., 0.)))
        .is_none());
}

#[test]
fn a_capture_is_replayed_until_something_changes() {
    let mut caches = VectorSceneCaches::new();
    let handle = VectorSceneCacheHandle::new(&mut caches);
    assert_eq!(handle.id, 1);
    let coverage = VectorSceneCoverage(rect(0., 0., 100., 100.));
    let element = cached_vector_scene_translation(
        handle,
        VectorSceneRevision(7),
        coverage,
        rect(10., 10., 20., 20.),
        point(3., 4.),
        "child",
    );
    assert_eq!(element.child, Some("child"));
    let same = VectorSceneTransform::default();
    assert!(element.prepaint(&mut caches, None, 2, same).is_none());
    let empty = VectorSceneState::default();
    assert!(element.prepaint(&mut caches, Some(&empty), 2, same).is_none());
    assert_eq!(handle.stats(&caches).misses, 2);

    let mut scene = Scene::default();
    scene.insert_primitive(quad().into());
    let prepaint = VectorScenePrepaintState {
        relative: None,
        prepaint_safe: true,
        cache_id_available: true,
    };
    let state = element.capture(&mut caches, prepaint, &scene, 0, 1, COUNTS, COUNTS, 2);
    assert!(state.ready);
    assert_eq!(state.operations, scene.paint_operations);
    assert_eq!(handle.stats(&caches).primitive_count, 1);
    assert_eq!(handle.stats(&caches).unsupported, 0);

    assert_eq!(element.prepaint(&mut caches, Some(&state), 2, same), Some(same));
    assert_eq!(handle.stats(&caches).hits, 1);
    assert!(element.prepaint(&mut caches, Some(&state), 3, same).is_none());
    let moved = cached_vector_scene_transform(
        handle,
        VectorSceneRevision(7),
        coverage,
        rect(90., 10., 20., 20.),
        same,
        (),
    );
    assert!(moved.prepaint(&mut caches, Some(&state), 2, same).is_none());
    let changed = cached_vector_scene_transform(
        handle,
        VectorSceneRevision(8),
        coverage,
        element.viewport,
        same,
        (),
    );
    assert!(changed.prepaint(&mut caches, Some(&state), 2, same).is_none());
    assert_eq!(handle.stats(&caches).hits, 1);
    assert_eq!(handle.stats(&caches).misses, 5);
}

#[test]
fn what_cannot_be_captured_is_counted_as_unsupported() {
    let mut caches = VectorSceneCaches::new();
    let handle = VectorSceneCacheHandle::new(&mut caches);
    let element = cached_vector_scene_transform(
        handle,
        VectorSceneRevision(1),
        VectorSceneCoverage(rect(0., 0., 100., 100.)),
        rect(0., 0., 1., 1.),
        VectorSceneTransform::default(),
        (),
    );
    let mut scene = Scene::default();
    scene.insert_primitive(quad().into());
    let safe = VectorScenePrepaintState {
        relative: None,
        prepaint_safe: true,
        cache_id_available: true,
    };
    let unsafe_prepaint = VectorScenePrepaintState { prepaint_safe: false, ..safe };
    let state = element.capture(&mut caches, unsafe_prepaint, &scene, 0, 1, COUNTS, COUNTS, 1);
    assert!(!state.ready && state.operations.is_empty());
    assert_eq!(handle.stats(&caches).primitive_count, 0);
    let listening = FrameCounts { mouse_listeners: 4, ..COUNTS };
    let state = element.capture(&mut caches, safe, &scene, 0, 1, COUNTS, listening, 1);
    assert!(!state.ready && state.operations.is_empty());
    let nowhere = VectorScenePrepaintState { cache_id_available: false, ..safe };
    let state = element.capture(&mut caches, nowhere, &scene, 0, 1, COUNTS, COUNTS, 1);
    assert!(!state.ready);
    assert_eq!(state.operations.len(), 1);
    assert_eq!(handle.stats(&caches).unsupported, 3);
    assert_eq!(handle.stats(&caches).primitive_count, 1);
    element.capture(&mut caches, unsafe_prepaint, &scene, 0, 1, COUNTS, COUNTS, 1);
    assert_eq!(handle.stats(&caches).unsupported, 4);
    assert_eq!(handle.stats(&caches).primitive_count, 1);
    assert!(prepaint_is_safe(COUNTS, listening));
    assert!(!prepaint_is_safe(COUNTS, FrameCounts { hitboxes: 2, ..COUNTS }));
}

#[test]
fn separate_vector_caches_count_apart() {
    let mut caches = VectorSceneCaches::new();
    let first = VectorSceneCacheHandle::new(&mut caches);
    let second = VectorSceneCacheHandle::new(&mut caches);
    assert!(first.id != second.id);
    let clone = first.clone();
    let element = cached_vector_scene_translation(
        clone,
        VectorSceneRevision(1),
        VectorSceneCoverage(rect(0., 0., 10., 10.)),
        rect(0., 0., 5., 5.),
        point(0., 0.),
        (),
    );
    assert!(element.prepaint(&mut caches, None, 2, VectorSceneTransform::default()).is_none());
    assert_eq!(first.stats(&caches).misses, 1);
    assert_eq!(second.stats(&caches).misses, 0);
    assert_eq!(second.stats(&caches).hits, 0);
    assert_eq!(clone.stats(&caches), first.stats(&caches));
    first.forget(&mut caches);
    assert_eq!(caches.counters.len(), 1);
    assert!(VectorSceneCacheHandle::new(&mut caches).id != first.id);
}

#[test]
fn a_cached_tile_is_painted_in_place() {
    let mut owners = RasterCacheOwners::new();
    let cache = RasterCacheHandle::new(&mut owners, RasterCacheConfig::default());
    let hit = cache.tile_hit(&mut owners, RasterTileKey::new(4), RasterTileRevision::new(5), 3);
    let mut scene = Scene::default();
    let mask = ContentMask { bounds: rect(0., 0., 50., 50.) };
    let element = cached_raster_tile(hit);
    element.paint(&mut scene, rect(10., 10., 20., 20.), mask);
    assert_eq!(scene.raster_tiles.len(), 1);
    let tile = scene.raster_tiles[0];
    assert_eq!((tile.cache_id, tile.key, tile.revision, tile.gutter), (cache.id(), 4, 5, 3));
    assert_eq!(tile.bounds, rect(10., 10., 20., 20.));
    assert_eq!(tile.content_mask, mask);
    let id = cache.id();
    cache.release(&mut owners);
    assert!(owners.is_held(id));
    element.release(&mut owners);
    assert!(!owners.is_held(id));
}

#[test]
fn one_tile_is_rasterized_and_shown() {
    let size = DeviceSize { width: 24, height: 24 };
    let mut scene = Scene::default();
    let mut tile_scene = Scene::default();
    tile_scene.insert_primitive(quad().into());
    let mut owners = RasterCacheOwners::new();
    let cache = new_cache(&mut owners);
    let element = rasterize_tile(miss(&mut owners, &cache, 9), size, 2, ());
    element.paint(&mut owners, &mut scene, tile_scene, rect(0., 0., 20., 20.));
    assert_eq!(scene.raster_tile_updates.len(), 1);
    assert_eq!(scene.raster_tile_updates[0].scene.quads.len(), 1);
    assert_eq!(scene.raster_tile_updates[0].texture_size, size);
    assert_eq!(scene.raster_tiles.len(), 1);
    assert_eq!(scene.raster_tiles[0].gutter, 2);
    let mut hidden = Scene::default();
    let shadow = rasterize_tile_shadow(miss(&mut owners, &cache, 9), size, 2, ());
    shadow.paint(&mut owners, &mut hidden, Scene::default(), rect(0., 0., 20., 20.));
    assert_eq!(hidden.raster_tile_updates.len(), 1);
    assert!(hidden.raster_tiles.is_empty());
    // Each update holds the cache until its scene goes.
    let id = cache.id();
    cache.release(&mut owners);
    element.release(&mut owners);
    shadow.release(&mut owners);
    assert_eq!(owners.handles.get(&id), Some(&2));
    hidden.clear(&mut owners);
    assert!(owners.is_held(id));
    // One scene within another goes with it.
    let mut outer = Scene::default();
    let keeper = new_cache(&mut owners);
    let around = rasterize_tile_shadow(miss(&mut owners, &keeper, 1), size, 0, ());
    around.paint(&mut owners, &mut outer, scene, rect(0., 0., 20., 20.));
    outer.release(&mut owners);
    assert!(!owners.is_held(id));
    assert!(owners.is_held(keeper.id()));
}

#[test]
fn several_tiles_are_rasterized_together() {
    let size = DeviceSize { width: 24, height: 24 };
    let mut owners = RasterCacheOwners::new();
    let cache = new_cache(&mut owners);
    let captures = |owners: &mut RasterCacheOwners| {
        vec![
            TileCapture {
                miss: miss(owners, &cache, 1),
                source_bounds: rect(0., 0., 20., 20.),
                composition_bounds: rect(0., 0., 10., 10.),
            },
            TileCapture {
                miss: miss(owners, &cache, 2),
                source_bounds: rect(20., 5., 20., 20.),
                composition_bounds: rect(10., 0., 10., 10.),
            },
        ]
    };
    let places = vec![
        CapturePlace {
            source_bounds: rect(0., 0., 40., 40.),
            composition_bounds: rect(0., 0., 20., 20.),
        },
        CapturePlace {
            source_bounds: rect(40., 10., 40., 40.),
            composition_bounds: rect(20., 0., 20., 20.),
        },
    ];
    let shown = rasterize_tiles(captures(&mut owners), size, -1, ());
    assert_eq!(shown.capture_bounds(), Some(between(0., 0., 40., 25.)));
    let mut scene = Scene::default();
    shown.paint(&mut owners, &mut scene, Scene::default(), &places);
    let batch = &scene.raster_tile_update_batches[0];
    assert!(!batch.deferred && !batch.verify);
    assert_eq!(batch.targets.len(), 2);
    assert_eq!(batch.targets[1].key.value(), 2);
    assert_eq!(batch.targets[1].source_bounds, rect(40., 10., 40., 40.));
    assert_eq!(scene.raster_tiles.len(), 2);
    assert_eq!(scene.raster_tiles[1].bounds, rect(20., 0., 20., 20.));
    assert_eq!(scene.raster_tiles[1].gutter, u32::MAX);

    let mut compared = Scene::default();
    let shadow = rasterize_tiles_shadow(captures(&mut owners), size, 0, ());
    shadow.paint(&mut owners, &mut compared, Scene::default(), &places);
    assert!(compared.raster_tile_update_batches[0].deferred);
    assert!(compared.raster_tile_update_batches[0].verify);
    assert!(compared.raster_tiles.is_empty());

    let mut deferred = Scene::default();
    let later = rasterize_tiles_deferred(captures(&mut owners), size, 0, ());
    later.paint(&mut owners, &mut deferred, Scene::default(), &places);
    assert!(deferred.raster_tile_update_batches[0].deferred);
    assert!(!deferred.raster_tile_update_batches[0].verify);

    let none = rasterize_tiles(Vec::new(), size, 0, ());
    assert_eq!(none.capture_bounds(), None);
    let mut empty = Scene::default();
    none.paint(&mut owners, &mut empty, deferred, &Vec::new());
    assert!(empty.raster_tile_update_batches.is_empty());
    // Of ten handles the scene given up held one.
    assert_eq!(owners.handles.get(&cache.id()), Some(&9));
    shown.release(&mut owners);
    assert_eq!(owners.handles.get(&cache.id()), Some(&7));
}

#[test]
fn a_surface_keeps_the_scene_of_its_child() {
    let mut scene = Scene::default();
    let mut inner = Scene::default();
    inner.insert_primitive(quad().into());
    raster_compositor_surface(6, RasterCompositorTransform::default(), ()).paint(
        &mut scene,
        inner,
        rectangle(0., 0., 10., 10.),
        rectangle(-5., -5., 20., 20.),
    );
    let surface = &scene.raster_compositor_surfaces[0];
    assert_eq!(surface.compositor_id, 6);
    assert_eq!(surface.raster_bounds, rectangle(-5., -5., 20., 20.));
    assert_eq!(surface.scene.quads.len(), 1);
    assert!(scene.quads.is_empty());
}
