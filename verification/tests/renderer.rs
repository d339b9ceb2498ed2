use raster_scene::compositor::{RasterCompositorLayer, RasterCompositorLayers};
use raster_scene::compositor_transform::RasterCompositorTransform;
use raster_scene::encode::{
    path_sprites, path_texture_for_viewport, DrawPass, Encoder, FrameStep, PassTarget, PathTexture,
};
use raster_scene::float_bits::{Float32, Float64};
use raster_scene::frame_plan::{
    batch_source_bounds, comparison_scene, draw_primitives, protected_tiles, BatchMeasures,
    TargetPlace,
};
use raster_scene::geometry::{Bounds, ContentMask, DeviceSize, Point, Rectangle, Size};
use raster_scene::gpu_types::{
    choose_device, path_rasterization_style, raster_tile_bounds, surface_bounds, unit_vertices,
    DeviceTraits, PathRasterizationVertex,
};
use raster_scene::image_comparison::{
    comparison_row_bytes, compare_bgra_images, RasterComparisonRegion, RasterComparisonSample,
};
use raster_scene::instance_buffer::{
    align_offset, presized, required_instance_buffer_size, reserve, scene_needs_path_intermediate,
    size_after_failure, InstanceBufferPool, InstanceSizes,
};
use raster_scene::natural::Natural;
use raster_scene::path::Path;
use raster_scene::presentation::{
    gpu_completed_event, gpu_scheduled_event, parse_metal_presentation_mode,
    presented_frame_sample, DisplayTarget, MetalPresentationMode, PresentationPlan,
};
use raster_scene::primitive::{
    AtlasTextureId, AtlasTile, BorderStyle, MonochromeSprite, PaintSurface, PathId, PrimitiveKind,
    Quad, RasterTile, ScenePath, Shadow, TransformationMatrix,
};
use raster_scene::raster_cache::{
    RasterCacheConfig, RasterCacheHandle, RasterCacheOwners, RasterTileKey, RasterTileLookup,
    RasterTileRevision,
};
use raster_scene::renderer::MetalRenderer;
use raster_scene::residency::{
    cached_raster_texture_key, PlacedTarget, PreparedRasterBatchTexture, RasterComparisonStats,
    RasterResidency,
};
use raster_scene::scene::{
    RasterCompositorSurface, RasterTileUpdate, RasterTileUpdateBatch, RasterTileUpdateTarget, Scene,
};
use raster_scene::time::{TimePoint, TimeSpan};
use raster_scene::trace_event::{
    FrameTraceEventKind, FLAG_DISPLAY_TARGET_INVALID, FLAG_DRAWABLE_ID_MISMATCH,
    FLAG_GPU_TIMESTAMPS_INVALID, FLAG_MISSED_DISPLAY_TARGET, FLAG_PRESENTATION_TIMESTAMP_INVALID,
    FLAG_PRESENTED_AFTER_DISPLAY_TARGET, FLAG_QUEUE_DEPTH_UNDERFLOW, FLAG_REUSED_SCENE,
};

const SIZES: InstanceSizes = InstanceSizes {
    shadow: 100,
    quad: 160,
    path_vertex: 16,
    path_sprite: 16,
    underline: 64,
    monochrome_sprite: 96,
    polychrome_sprite: 112,
    surface: 32,
    raster_tile: 64,
};

fn float(value: f32) -> Float32 {
    Float32::from_bits(value.to_bits())
}

fn rect(x: f32, y: f32, width: f32, height: f32) -> Bounds {
    Bounds {
        left: float(x),
        top: float(y),
        right: float(x + width),
        bottom: float(y + height),
        size: Some(Size { width: float(width), height: float(height) }),
    }
}

/// A rectangle between edges, whose size was not given.
fn between(left: f32, top: f32, right: f32, bottom: f32) -> Bounds {
    Bounds {
        left: float(left),
        top: float(top),
        right: float(right),
        bottom: float(bottom),
        size: None,
    }
}

fn rectangle(x: f32, y: f32, width: f32, height: f32) -> Rectangle {
    Rectangle {
        origin: Point::new(float(x), float(y)),
        size: Size { width: float(width), height: float(height) },
    }
}

fn size(width: i32, height: i32) -> DeviceSize {
    DeviceSize { width, height }
}

fn quad() -> Quad {
    Quad {
        order: 0,
        bounds: rect(0., 0., 10., 10.),
        content_mask: ContentMask { bounds: rect(0., 0., 10., 10.) },
        border_style: BorderStyle::Dashed,
        transformation: TransformationMatrix::unit(),
        style: 0,
        clipped_area_device_px2: 0,
    }
}

fn tile(cache_id: u64, key: u64, revision: u64) -> RasterTile {
    RasterTile {
        order: 0,
        bounds: rect(0., 0., 10., 10.),
        content_mask: ContentMask { bounds: rect(0., 0., 10., 10.) },
        cache_id,
        key,
        revision,
        gutter: 2,
    }
}

fn path(order: u32, bounds: Bounds, vertex_count: usize) -> ScenePath {
    ScenePath {
        order,
        bounds,
        content_mask: ContentMask { bounds },
        id: PathId(0),
        vertex_count,
        contour_count: 1,
        start: Point::new(float(0.), float(0.)),
        current: Point::new(float(0.), float(0.)),
        geometry: 0,
        style: 5,
    }
}

fn target(key: u64, x: i32, y: i32) -> PlacedTarget {
    PlacedTarget {
        key: RasterTileKey::new(key),
        revision: RasterTileRevision::new(1),
        source_x: x,
        source_y: y,
    }
}

fn prepare(
    residency: &mut RasterResidency,
    cache: &RasterCacheHandle,
    key: u64,
    revision: u64,
    texture: DeviceSize,
    protected: &Vec<raster_scene::residency::CachedRasterTextureKey>,
) -> bool {
    residency
        .prepare_raster_texture_fields(
            cache.weak_identity(),
            RasterTileKey::new(key),
            RasterTileRevision::new(revision),
            texture,
            2,
            protected,
        )
        .is_some()
}

#[test]
fn presentation_mode_defaults_to_asap() {
    assert_eq!(parse_metal_presentation_mode(None), MetalPresentationMode::Asap);
}

#[test]
fn presentation_mode_accepts_closed_values() {
    assert_eq!(parse_metal_presentation_mode(Some("asap")), MetalPresentationMode::Asap);
    assert_eq!(
        parse_metal_presentation_mode(Some("display-link-target-early")),
        MetalPresentationMode::DisplayLinkTargetEarly
    );
    assert_eq!(parse_metal_presentation_mode(Some("unexpected")), MetalPresentationMode::Asap);
}

#[test]
fn raster_texture_identity_keeps_content_revisions_distinct() {
    let visible = cached_raster_texture_key(7, 11, 41);
    let replacement = cached_raster_texture_key(7, 11, 42);

    assert_ne!(visible, replacement);
    let protected = vec![visible, replacement];
    assert!(protected.contains(&visible));
    assert!(protected.contains(&replacement));
}

#[test]
fn identical_images_have_perfect_similarity() {
    let image = vec![17_u8; 4 * 4 * 4];
    let regions = [RasterComparisonRegion { x: 0, y: 0, width: 4, height: 4 }];
    assert_eq!(
        compare_bgra_images(&image, &image, 4, 4, 16, &regions),
        RasterComparisonSample {
            ssim_ppb: 1_000_000_000,
            p99_channel_error: 0,
            max_channel_error: 0,
        }
    );
}

#[test]
fn comparison_reports_channel_error_and_honors_gutter() {
    let reference = vec![0_u8; 4 * 4 * 4];
    let mut candidate = reference.clone();
    candidate[0] = 255;
    let inner_region = [RasterComparisonRegion { x: 1, y: 1, width: 2, height: 2 }];
    assert_eq!(
        compare_bgra_images(&reference, &candidate, 4, 4, 16, &inner_region),
        RasterComparisonSample {
            ssim_ppb: 1_000_000_000,
            p99_channel_error: 0,
            max_channel_error: 0,
        }
    );
    let full_region = [RasterComparisonRegion { x: 0, y: 0, width: 4, height: 4 }];
    let sample = compare_bgra_images(&reference, &candidate, 4, 4, 16, &full_region);
    assert_eq!(sample.max_channel_error, 255);
}

fn float_similarity(reference: &[u8], candidate: &[u8]) -> u32 {
    let luma = |pixel: &[u8]| {
        (77. * f64::from(pixel[2]) + 150. * f64::from(pixel[1]) + 29. * f64::from(pixel[0])) / 256.
    };
    let count = (reference.len() / 4) as f64;
    let (mut r, mut c, mut rr, mut cc, mut rc) = (0f64, 0f64, 0f64, 0f64, 0f64);
    for (a, b) in reference.chunks(4).zip(candidate.chunks(4)) {
        let (x, y) = (luma(a), luma(b));
        r += x;
        c += y;
        rr += x * x;
        cc += y * y;
        rc += x * y;
    }
    let (mr, mc) = (r / count, c / count);
    let (vr, vc) = ((rr / count - mr * mr).max(0.), (cc / count - mc * mc).max(0.));
    let cov = rc / count - mr * mc;
    let c1 = (0.01_f64 * 255.).powi(2);
    let c2 = (0.03_f64 * 255.).powi(2);
    let ssim = ((2. * mr * mc + c1) * (2. * cov + c2))
        / ((mr.powi(2) + mc.powi(2) + c1) * (vr + vc + c2));
    (ssim.clamp(0., 1.) * 1_000_000_000.).round() as u32
}

#[test]
fn similarity_agrees_with_its_formula() {
    let mut state = 12345_u32;
    let mut next = || {
        state = state.wrapping_mul(1_664_525).wrapping_add(1_013_904_223);
        (state >> 24) as u8
    };
    for round in 0..8u8 {
        let reference: Vec<u8> = (0..16 * 4).map(|_| next()).collect();
        let candidate: Vec<u8> = reference
            .iter()
            .map(|value| if round % 2 == 0 { value.saturating_add(round * 3) } else { next() })
            .collect();
        let regions = [RasterComparisonRegion { x: 0, y: 0, width: 4, height: 4 }];
        let sample = compare_bgra_images(&reference, &candidate, 4, 4, 16, &regions);
        assert_eq!(sample.ssim_ppb, float_similarity(&reference, &candidate));
        let mut errors: Vec<u8> =
            reference.iter().zip(&candidate).map(|(a, b)| a.abs_diff(*b)).collect();
        errors.sort();
        assert_eq!(sample.max_channel_error, errors[63]);
        assert_eq!(sample.p99_channel_error, errors[(64 * 99 + 99) / 100 - 1]);
    }
}

#[test]
fn opposite_images_are_not_similar() {
    let reference: Vec<u8> = [[0u8, 0, 0, 255], [255, 255, 255, 255]].concat();
    let candidate: Vec<u8> = [[255u8, 255, 255, 255], [0, 0, 0, 255]].concat();
    let regions = [RasterComparisonRegion { x: 0, y: 0, width: 2, height: 1 }];
    let sample = compare_bgra_images(&reference, &candidate, 2, 1, 8, &regions);
    assert_eq!(sample.ssim_ppb, 0);
    assert_eq!(sample.max_channel_error, 255);
    assert_eq!(sample.p99_channel_error, 255);
}

#[test]
fn a_comparison_without_pixels_fails() {
    let image = vec![1_u8; 16];
    let nothing = RasterComparisonSample {
        ssim_ppb: 0,
        p99_channel_error: u8::MAX,
        max_channel_error: u8::MAX,
    };
    assert_eq!(compare_bgra_images(&image, &image, 2, 2, 8, &[]), nothing);
    let outside = [RasterComparisonRegion { x: 5, y: 0, width: usize::MAX, height: 9 }];
    assert_eq!(compare_bgra_images(&image, &image, 2, 2, 8, &outside), nothing);
    let whole = [RasterComparisonRegion { x: 0, y: 0, width: 2, height: 2 }];
    assert_eq!(compare_bgra_images(&image, &image[..3], 2, 2, 8, &whole), nothing);
    let partly = compare_bgra_images(&image, &image[..8], 2, 2, 8, &whole);
    assert_eq!(partly.ssim_ppb, 1_000_000_000);
}

#[test]
fn comparisons_accumulate_the_worst() {
    let mut stats = RasterComparisonStats {
        samples: 0,
        min_ssim_ppb: 0,
        p99_channel_error: 0,
        max_channel_error: 0,
    };
    stats.accumulate(RasterComparisonSample {
        ssim_ppb: 900,
        p99_channel_error: 3,
        max_channel_error: 9,
    });
    assert_eq!((stats.samples, stats.min_ssim_ppb), (1, 900));
    stats.accumulate(RasterComparisonSample {
        ssim_ppb: 950,
        p99_channel_error: 4,
        max_channel_error: 8,
    });
    assert_eq!(
        stats,
        RasterComparisonStats {
            samples: 2,
            min_ssim_ppb: 900,
            p99_channel_error: 4,
            max_channel_error: 9,
        }
    );
    let mut owners = RasterCacheOwners::new();
    let cache = RasterCacheHandle::new(&mut owners, RasterCacheConfig::default());
    let mut residency = RasterResidency::new();
    let sample =
        RasterComparisonSample { ssim_ppb: 5, p99_channel_error: 6, max_channel_error: 7 };
    assert_eq!(residency.account_number(cache.id()), 0);
    residency.record_comparison(0, sample);
    assert_eq!(residency.raster_cache_stats(&cache).comparison_samples, 0);
    assert!(prepare(&mut residency, &cache, 1, 1, size(10, 10), &vec![]));
    let account = residency.account_number(cache.id());
    residency.record_comparison(account, sample);
    let compared = residency.raster_cache_stats(&cache);
    assert_eq!(compared.comparison_samples, 1);
    assert_eq!(compared.comparison_min_ssim_ppb, 5);
    assert_eq!(compared.comparison_p99_channel_error, 6);
    assert_eq!(compared.comparison_max_channel_error, 7);
    assert_eq!(comparison_row_bytes(1), 256);
    assert_eq!(comparison_row_bytes(64), 256);
    assert_eq!(comparison_row_bytes(65), 512);
    assert_eq!(comparison_row_bytes(usize::MAX), usize::MAX - 255);
}

#[test]
fn natural_numbers_add_multiply_and_compare() {
    let big = Natural::from_u128(u128::MAX);
    let square = big.times(&big);
    // (2^128 - 1)^2 + 2 * (2^128 - 1) + 1 == 2^256
    let one = Natural::from_u128(1);
    let sum = square.plus(&big.times_small(2)).plus(&one);
    let two_to_128 = big.plus(&one);
    let expected = two_to_128.times(&two_to_128);
    assert!(sum.at_most(&expected));
    assert!(expected.at_most(&sum));
    assert!(square.at_most(&expected));
    assert!(!expected.at_most(&square));
}

#[test]
fn renderer_instance_types_remain_compact() {
    assert!(std::mem::size_of::<MonochromeSprite>() <= 128);
    assert!(std::mem::size_of::<Quad>() <= 192);
    assert!(std::mem::size_of::<Shadow>() <= 192);
    assert_eq!(std::mem::size_of::<PathRasterizationVertex>(), 16);
}

#[test]
fn path_intermediate_is_reserved_only_for_scenes_with_paths() {
    let mut scene = Scene::default();
    assert!(!scene_needs_path_intermediate(&scene));

    scene.paths.push(Path::new(Point::new(float(0.), float(0.))).primitive(0));
    assert!(scene_needs_path_intermediate(&scene));
}

#[test]
fn tiles_are_prepared_found_and_released() {
    let mut owners = RasterCacheOwners::new();
    let cache =
        RasterCacheHandle::new(&mut owners, RasterCacheConfig::new(1_000, 10_000).unwrap());
    let mut residency = RasterResidency::new();
    residency.advance_frame();
    let key = RasterTileKey::new(1);
    let revision = RasterTileRevision::new(1);
    match residency.raster_tile_lookup(&mut owners, &cache, key, revision) {
        RasterTileLookup::Miss(miss) => miss.release(&mut owners),
        _ => panic!("nothing was prepared yet"),
    }
    assert!(prepare(&mut residency, &cache, 1, 1, size(10, 10), &vec![]));
    let hit = match residency.raster_tile_lookup(&mut owners, &cache, key, revision) {
        RasterTileLookup::Hit(hit) => hit,
        _ => panic!("a prepared tile is resident"),
    };
    assert_eq!(hit.gutter, 2);
    let stats = residency.raster_cache_stats(&cache);
    assert_eq!(stats.resident_bytes, 400);
    assert_eq!(stats.resident_tiles, 1);
    assert_eq!((stats.hits, stats.misses), (1, 1));
    residency.release_raster_cache(&cache);
    assert_eq!(residency.raster_cache_stats(&cache).resident_bytes, 0);
    assert!(residency.textures.is_empty());
    assert!(prepare(&mut residency, &cache, 1, 1, size(10, 10), &vec![]));
    let other = RasterCacheHandle::new(&mut owners, RasterCacheConfig::default());
    cache.release(&mut owners);
    // The hit still keeps the cache, and so does another one like it.
    let again = hit.duplicate(&mut owners);
    hit.release(&mut owners);
    residency.raster_tile_lookup(&mut owners, &other, key, revision);
    assert_eq!(residency.textures.len(), 1);
    assert_eq!(residency.namespaces.len(), 2);
    again.release(&mut owners);
    residency.raster_tile_lookup(&mut owners, &other, key, revision);
    assert!(residency.textures.is_empty());
    assert_eq!(residency.namespaces.len(), 1);
}

#[test]
fn sizes_without_pixels_or_above_the_limit_are_refused() {
    let mut owners = RasterCacheOwners::new();
    let cache = RasterCacheHandle::new(&mut owners, RasterCacheConfig::new(100, 400).unwrap());
    let mut residency = RasterResidency::new();
    assert!(!prepare(&mut residency, &cache, 1, 1, size(0, 10), &vec![]));
    assert!(!prepare(&mut residency, &cache, 1, 1, size(10, -1), &vec![]));
    assert!(!prepare(&mut residency, &cache, 1, 1, size(10, 11), &vec![]));
    assert!(!prepare(&mut residency, &cache, 1, 1, size(i32::MAX, i32::MAX), &vec![]));
    assert!(prepare(&mut residency, &cache, 1, 1, size(10, 10), &vec![]));
}

#[test]
fn the_oldest_unprotected_tile_makes_room() {
    let mut owners = RasterCacheOwners::new();
    let cache = RasterCacheHandle::new(&mut owners, RasterCacheConfig::new(400, 1_200).unwrap());
    let mut residency = RasterResidency::new();
    for key in 1..=3u64 {
        residency.advance_frame();
        assert!(prepare(&mut residency, &cache, key, 1, size(10, 10), &vec![]));
    }
    residency.advance_frame();
    let oldest = cached_raster_texture_key(cache.id(), 1, 1);
    assert!(prepare(&mut residency, &cache, 4, 1, size(10, 10), &vec![oldest]));
    let keys: Vec<u64> =
        residency.textures.iter().map(|texture| texture.key.tile_key).collect();
    assert_eq!(keys, vec![1, 3, 4]);
    let stats = residency.raster_cache_stats(&cache);
    assert_eq!(stats.evicted_tiles, 1);
    assert_eq!(stats.resident_bytes, 1_200);
    assert_eq!(stats.resident_tiles, 3);
    let all: Vec<_> = residency.textures.iter().map(|texture| texture.key).collect();
    assert!(!prepare(&mut residency, &cache, 5, 1, size(10, 10), &all));
    assert_eq!(residency.textures.len(), 3);
}

#[test]
fn another_revision_is_another_tile() {
    let mut owners = RasterCacheOwners::new();
    let cache = RasterCacheHandle::new(&mut owners, RasterCacheConfig::default());
    let mut residency = RasterResidency::new();
    assert!(prepare(&mut residency, &cache, 1, 1, size(10, 10), &vec![]));
    assert!(prepare(&mut residency, &cache, 1, 2, size(10, 10), &vec![]));
    assert_eq!(residency.raster_cache_stats(&cache).resident_tiles, 2);
    // Another size of the same revision replaces it.
    assert!(prepare(&mut residency, &cache, 1, 2, size(20, 10), &vec![]));
    let stats = residency.raster_cache_stats(&cache);
    assert_eq!(stats.resident_tiles, 2);
    assert_eq!(stats.resident_bytes, 400 + 800);
    assert_eq!(stats.evicted_tiles, 0);
}

#[test]
fn a_batch_shares_one_allocation() {
    let mut owners = RasterCacheOwners::new();
    let cache = RasterCacheHandle::new(&mut owners, RasterCacheConfig::new(400, 4_000).unwrap());
    let mut residency = RasterResidency::new();
    let targets = vec![target(1, 0, 0), target(2, 10, 0)];
    let prepared = residency.prepare_raster_batch_texture(
        cache.weak_identity(),
        size(10, 10),
        2,
        &targets,
        size(20, 10),
        &vec![],
    );
    assert_eq!(prepared, Some(PreparedRasterBatchTexture::Allocated(0)));
    let stats = residency.raster_cache_stats(&cache);
    assert_eq!(stats.resident_bytes, 800);
    assert_eq!(stats.resident_tiles, 2);
    assert_eq!(residency.textures[1].source_x, 10);
    // All tiles are there now.
    let again = residency.prepare_raster_batch_texture(
        cache.weak_identity(),
        size(10, 10),
        2,
        &targets,
        size(20, 10),
        &vec![],
    );
    assert_eq!(again, Some(PreparedRasterBatchTexture::AlreadyReady));
    // The allocation is paid for until its last tile goes.
    residency.remove_raster_texture(cached_raster_texture_key(cache.id(), 1, 1), true);
    assert_eq!(residency.raster_cache_stats(&cache).resident_bytes, 800);
    residency.remove_raster_texture(cached_raster_texture_key(cache.id(), 2, 1), true);
    let empty = residency.raster_cache_stats(&cache);
    assert_eq!((empty.resident_bytes, empty.resident_tiles, empty.evicted_tiles), (0, 0, 2));
}

#[test]
fn a_batch_refuses_targets_outside_of_its_texture() {
    let mut owners = RasterCacheOwners::new();
    let cache = RasterCacheHandle::new(&mut owners, RasterCacheConfig::default());
    let mut residency = RasterResidency::new();
    for misplaced in [target(1, -1, 0), target(1, 11, 0), target(1, 0, 1), target(1, i32::MAX, 0)] {
        let prepared = residency.prepare_raster_batch_texture(
            cache.weak_identity(),
            size(10, 10),
            2,
            &vec![misplaced],
            size(20, 10),
            &vec![],
        );
        assert_eq!(prepared, None);
    }
    assert!(residency.textures.is_empty());
}

#[test]
fn a_tile_named_twice_is_counted_twice() {
    let mut owners = RasterCacheOwners::new();
    let cache = RasterCacheHandle::new(&mut owners, RasterCacheConfig::default());
    let mut residency = RasterResidency::new();
    residency.prepare_raster_batch_texture(
        cache.weak_identity(),
        size(10, 10),
        2,
        &vec![target(1, 0, 0), target(1, 10, 0)],
        size(20, 10),
        &vec![],
    );
    assert_eq!(residency.textures.len(), 1);
    assert_eq!(residency.textures[0].source_x, 10);
    assert_eq!(residency.raster_cache_stats(&cache).resident_tiles, 2);
}

#[test]
fn room_is_reserved_in_aligned_runs() {
    assert_eq!(align_offset(0), 0);
    assert_eq!(align_offset(1), 256);
    assert_eq!(align_offset(256), 256);
    assert_eq!(align_offset(usize::MAX), usize::MAX);
    assert_eq!(reserve(10, 0, 160), 10);
    assert_eq!(reserve(10, 2, 160), 256 + 320);
    assert_eq!(reserve(usize::MAX, 1, 1), usize::MAX);
}

#[test]
fn the_required_size_covers_all_that_is_drawn_at_once() {
    let mut scene = Scene::default();
    scene.insert_primitive(quad().into());
    scene.finish();
    assert_eq!(required_instance_buffer_size(&scene, &SIZES), 160);
    let mut inner = Scene::default();
    inner.insert_primitive(quad().into());
    inner.insert_primitive(quad().into());
    inner.finish();
    scene.raster_compositor_surfaces.push(RasterCompositorSurface {
        compositor_id: 1,
        captured_transform: RasterCompositorTransform::default(),
        clip_bounds: rectangle(0., 0., 1., 1.),
        raster_bounds: rectangle(0., 0., 1., 1.),
        scene: inner,
    });
    assert_eq!(required_instance_buffer_size(&scene, &SIZES), 320);
    let mut owners = RasterCacheOwners::new();
    let cache = RasterCacheHandle::new(&mut owners, RasterCacheConfig::default());
    let mut tile_scene = Scene::default();
    tile_scene.insert_primitive(quad().into());
    tile_scene.finish();
    scene.raster_tile_updates.push(RasterTileUpdate {
        cache: cache.duplicate(&mut owners),
        key: RasterTileKey::new(1),
        revision: RasterTileRevision::new(1),
        texture_size: size(10, 10),
        gutter: 0,
        source_bounds: rect(0., 0., 10., 10.),
        scene: tile_scene,
    });
    assert_eq!(required_instance_buffer_size(&scene, &SIZES), 256 + 160);
    scene.raster_tile_update_batches.push(RasterTileUpdateBatch {
        cache: cache.duplicate(&mut owners),
        texture_size: size(10, 10),
        gutter: 0,
        targets: (0..3)
            .map(|key| RasterTileUpdateTarget {
                key: RasterTileKey::new(key),
                revision: RasterTileRevision::new(1),
                source_bounds: rect(0., 0., 10., 10.),
            })
            .collect(),
        scene: Scene::default(),
        deferred: true,
        verify: true,
    });
    assert_eq!(required_instance_buffer_size(&scene, &SIZES), 512 + 64);
}

#[test]
fn paths_take_vertices_and_sprites() {
    let mut scene = Scene::default();
    scene.paths.push(path(1, rect(0., 0., 10., 10.), 3));
    scene.paths.push(path(1, rect(20., 0., 10., 10.), 0));
    assert_eq!(required_instance_buffer_size(&scene, &SIZES), 256 + 32);
    scene.paths.push(path(2, rect(5., 5., 10., 10.), 6));
    assert_eq!(required_instance_buffer_size(&scene, &SIZES), 512 + 16);
    let apart = path_sprites(&scene.paths, 0, 2);
    assert_eq!(apart.len(), 2);
    assert_eq!(apart[1].bounds, between(20., 0., 30., 10.));
    let together = path_sprites(&scene.paths, 0, 3);
    assert_eq!(together.len(), 1);
    assert_eq!(together[0].bounds, between(0., 0., 30., 15.));
}

#[test]
fn buffers_grow_by_powers_of_two() {
    assert_eq!(presized(1_024, 1_000), None);
    assert_eq!(presized(1_024, 1_025), Some(2_048));
    assert_eq!(presized(0, 1), Some(1));
    assert_eq!(presized(1_024, 1 << 28), Some(1 << 28));
    assert_eq!(presized(1_024, (1 << 28) + 1), Some(1 << 28));
    assert_eq!(presized(1 << 28, (1 << 28) + 1), Some(1 << 28));
    assert_eq!(size_after_failure(1_024), Some(2_048));
    assert_eq!(size_after_failure(1 << 28), None);
}

#[test]
fn the_pool_takes_back_buffers_of_its_size() {
    let mut pool = InstanceBufferPool::default();
    assert_eq!(pool.buffer_size, 2_097_152);
    let first = pool.acquire(1);
    assert_eq!((first.id, first.size), (1, 2_097_152));
    pool.release(first);
    let again = pool.acquire(2);
    assert_eq!(again.id, 1);
    pool.reset(100);
    pool.release(again);
    assert!(pool.buffers.is_empty());
    assert_eq!(pool.acquire(3).size, 100);
}

#[test]
fn encoding_ends_where_the_buffer_does() {
    let mut scene = Scene::default();
    scene.insert_primitive(quad().into());
    scene.paths.push(path(9, rect(0., 0., 10., 10.), 3));
    scene.finish();
    let residency = RasterResidency::new();
    let mut encoder = Encoder::new(1_024);
    assert!(encoder.encode_scene(&scene, &SIZES, &residency, true));
    assert_eq!(encoder.steps.len(), 3);
    assert_eq!(encoder.offset, 512 + 16);
    match encoder.steps[1] {
        FrameStep::Draw(step) => {
            assert_eq!(step.pass, DrawPass::PathVertices);
            assert_eq!((step.offset, step.bytes), (256, 48));
        }
        FrameStep::Begin(_) => panic!("a path is drawn here"),
    }
    let mut tight = Encoder::new(300);
    assert!(!tight.encode_scene(&scene, &SIZES, &residency, true));
    assert_eq!(tight.failed, Some(PrimitiveKind::Path));
    assert_eq!(tight.offset, 256);
    let mut without = Encoder::new(1_024);
    assert!(!without.encode_scene(&scene, &SIZES, &residency, false));
    assert_eq!(without.failed, Some(PrimitiveKind::Path));
    assert_eq!(without.offset, 160);
}

#[test]
fn tiles_that_are_not_resident_are_not_drawn() {
    let mut owners = RasterCacheOwners::new();
    let cache = RasterCacheHandle::new(&mut owners, RasterCacheConfig::default());
    let mut residency = RasterResidency::new();
    assert!(prepare(&mut residency, &cache, 1, 1, size(10, 10), &vec![]));
    let mut scene = Scene::default();
    scene.insert_primitive(tile(cache.id(), 2, 1).into());
    scene.insert_primitive(tile(cache.id(), 1, 1).into());
    scene.finish();
    let mut encoder = Encoder::new(64);
    assert!(encoder.encode_scene(&scene, &SIZES, &residency, true));
    assert_eq!(encoder.steps.len(), 1);
    match encoder.steps[0] {
        FrameStep::Draw(step) => assert_eq!((step.start, step.end, step.offset), (1, 2, 0)),
        FrameStep::Begin(_) => panic!("a tile is drawn here"),
    }
    let bounds = raster_tile_bounds(&scene.raster_tiles[1], &residency.textures[0], size(10, 10));
    assert_eq!(bounds.source_size, size(10, 10));
    assert_eq!(bounds.gutter, 2);
    let mut negative = scene.raster_tiles[1];
    negative.gutter = u32::MAX;
    assert_eq!(raster_tile_bounds(&negative, &residency.textures[0], size(10, 10)).gutter, -1);
}

#[test]
fn a_frame_prepares_trims_and_draws() {
    let mut owners = RasterCacheOwners::new();
    let cache = RasterCacheHandle::new(&mut owners, RasterCacheConfig::new(500, 4_000).unwrap());
    let mut residency = RasterResidency::new();
    residency.advance_frame();
    assert!(prepare(&mut residency, &cache, 100, 1, size(10, 10), &vec![]));
    residency.advance_frame();
    let mut scene = Scene::default();
    let mut tile_scene = Scene::default();
    tile_scene.insert_primitive(quad().into());
    tile_scene.finish();
    scene.raster_tile_updates.push(RasterTileUpdate {
        cache: cache.duplicate(&mut owners),
        key: RasterTileKey::new(1),
        revision: RasterTileRevision::new(1),
        texture_size: size(10, 10),
        gutter: 1,
        source_bounds: rect(0., 0., 10., 10.),
        scene: tile_scene,
    });
    scene.raster_tile_update_batches.push(RasterTileUpdateBatch {
        cache: cache.duplicate(&mut owners),
        texture_size: size(12, 12),
        gutter: 1,
        targets: vec![
            RasterTileUpdateTarget {
                key: RasterTileKey::new(2),
                revision: RasterTileRevision::new(1),
                source_bounds: rect(0., 0., 10., 10.),
            },
            RasterTileUpdateTarget {
                key: RasterTileKey::new(3),
                revision: RasterTileRevision::new(1),
                source_bounds: rect(10., 0., 10., 10.),
            },
        ],
        scene: Scene::default(),
        deferred: true,
        verify: true,
    });
    scene.insert_primitive(tile(cache.id(), 1, 1).into());
    scene.finish();
    let measures = vec![BatchMeasures {
        width: 20,
        height: 10,
        places: vec![TargetPlace { x: 0, y: 0 }, TargetPlace { x: 10, y: 0 }],
    }];
    assert_eq!(
        batch_source_bounds(&scene.raster_tile_update_batches[0].targets),
        Some(between(0., 0., 20., 10.))
    );
    let keys: Vec<u64> = protected_tiles(&scene).iter().map(|key| key.tile_key).collect();
    assert_eq!(keys, vec![1, 1, 2, 3]);
    assert_eq!(comparison_scene(&scene.raster_tile_update_batches[0]).raster_tiles.len(), 2);
    let needed = required_instance_buffer_size(&scene, &SIZES);
    let mut encoder = Encoder::new(needed);
    assert!(draw_primitives(
        &mut residency,
        &mut encoder,
        &scene,
        &measures,
        &SIZES,
        needed,
        false
    ));
    let passes: Vec<PassTarget> = encoder
        .steps
        .iter()
        .filter_map(|step| match step {
            FrameStep::Begin(target) => Some(*target),
            FrameStep::Draw(_) => None,
        })
        .collect();
    assert_eq!(
        passes,
        vec![
            PassTarget::Tile { update: 0, allocation: 1, fresh: true },
            PassTarget::Batch { batch: 0, allocation: 2, size: size(22, 12), deferred: true },
            PassTarget::Comparison { batch: 0, account: 1 },
            PassTarget::Drawable,
        ]
    );
    // The tile that nobody needs went, down to the soft limit as far as possible.
    let left: Vec<u64> = residency.textures.iter().map(|texture| texture.key.tile_key).collect();
    assert_eq!(left, vec![1, 2, 3]);
    let stats = residency.raster_cache_stats(&cache);
    assert_eq!(stats.resident_bytes, 400 + 22 * 12 * 4);
    assert_eq!(stats.evicted_tiles, 1);
}

#[test]
fn a_comparison_that_comes_late_is_lost() {
    let mut owners = RasterCacheOwners::new();
    let cache = RasterCacheHandle::new(&mut owners, RasterCacheConfig::default());
    let mut residency = RasterResidency::new();
    let sample =
        RasterComparisonSample { ssim_ppb: 5, p99_channel_error: 6, max_channel_error: 7 };
    let (key, revision) = (RasterTileKey::new(1), RasterTileRevision::new(1));
    residency.raster_tile_lookup(&mut owners, &cache, key, revision);
    let account = residency.account_number(cache.id());
    residency.release_raster_cache(&cache);
    residency.raster_tile_lookup(&mut owners, &cache, key, revision);
    residency.record_comparison(account, sample);
    assert_eq!(residency.raster_cache_stats(&cache).comparison_samples, 0);
    let anew = residency.account_number(cache.id());
    assert!(anew != account);
    residency.record_comparison(anew, sample);
    assert_eq!(residency.raster_cache_stats(&cache).comparison_samples, 1);
}

#[test]
fn a_tile_is_drawn_from_the_texture_it_was_found_in() {
    let mut owners = RasterCacheOwners::new();
    let cache = RasterCacheHandle::new(&mut owners, RasterCacheConfig::default());
    let mut residency = RasterResidency::new();
    assert!(prepare(&mut residency, &cache, 1, 1, size(10, 10), &vec![]));
    let mut scene = Scene::default();
    scene.insert_primitive(tile(cache.id(), 1, 1).into());
    scene.finish();
    let mut encoder = Encoder::new(1_024);
    assert!(encoder.encode_scene(&scene, &SIZES, &residency, true));
    let first = residency.textures[0];
    // The tile is prepared again at another size.
    assert!(prepare(&mut residency, &cache, 1, 1, size(12, 12), &vec![]));
    assert!(encoder.encode_scene(&scene, &SIZES, &residency, true));
    let drawn: Vec<_> = encoder
        .steps
        .iter()
        .map(|step| match step {
            FrameStep::Draw(step) => step.texture,
            FrameStep::Begin(_) => None,
        })
        .collect();
    assert_eq!(drawn, vec![Some(first), Some(residency.textures[0])]);
    assert!(first.allocation != residency.textures[0].allocation);
}

#[test]
fn drawing_retries_with_larger_buffers() {
    let mut pool = InstanceBufferPool::default();
    pool.reset(64);
    let mut renderer = MetalRenderer::new(pool, MetalPresentationMode::Asap, 9);
    let mut scene = Scene::default();
    scene.insert_primitive(quad().into());
    scene.finish();
    let plan = renderer.draw(&scene, &vec![], &SIZES, size(10, 10), 5);
    assert!(plan.encoded);
    assert_eq!(plan.buffer.size, 256);
    assert_eq!(plan.buffer.id, 5);
    assert_eq!(plan.offset, 160);
    assert_eq!(plan.steps.len(), 2);
    let mut needs_texture = Scene::default();
    needs_texture.paths.push(path(1, rect(0., 0., 10., 10.), 3));
    let failed = renderer.draw(&needs_texture, &vec![], &SIZES, size(0, 0), 6);
    assert!(!failed.encoded);
    assert_eq!(failed.buffer.size, 268_435_456);
}

#[test]
fn a_frame_begins_with_enough_room() {
    let mut pool = InstanceBufferPool::default();
    pool.reset(64);
    let mut renderer =
        MetalRenderer::new(pool, MetalPresentationMode::DisplayLinkTargetEarly, 9);
    renderer.set_display_link_target(Some(77));
    let mut scene = Scene::default();
    for _ in 0..3 {
        scene.insert_primitive(quad().into());
    }
    scene.finish();
    let start = renderer.begin_draw(&scene, &SIZES);
    assert_eq!(start.frame_index, 1);
    assert_eq!(start.target_host_time, Some(77));
    assert_eq!(start.required_bytes, 480);
    assert_eq!(start.grown_to, Some(512));
    assert_eq!(renderer.display_link_target_host_time, None);
    let plan = renderer.draw(&scene, &vec![], &SIZES, size(10, 10), 5);
    assert!(plan.encoded);
    assert_eq!(plan.buffer.size, 512);
    assert_eq!(
        renderer.presentation_plan(start.target_host_time),
        PresentationPlan::AtHostTime(77)
    );
    renderer.set_display_link_target(Some(78));
    renderer.set_presents_with_transaction(true);
    assert_eq!(renderer.display_link_target_host_time, None);
    assert_eq!(renderer.presentation_plan(Some(1)), PresentationPlan::WithTransaction);
    renderer.set_presents_with_transaction(false);
    assert_eq!(renderer.presentation_plan(None), PresentationPlan::Immediately);
}

#[test]
fn submissions_and_presentations_are_traced() {
    let mut renderer =
        MetalRenderer::new(InstanceBufferPool::default(), MetalPresentationMode::Asap, 4);
    let mut scene = Scene::default();
    scene.set_frame_trace_correlation(30, 8, None);
    let frame = renderer.frame_identity(&scene, 11, 12);
    assert!(!frame.reused_scene);
    let target = DisplayTarget { time_ns: 1_000, tick_sequence: 6 };
    let submitted = renderer.submit(1_001, frame, target);
    assert_eq!(submitted.kind, FrameTraceEventKind::CommandBufferSubmitted);
    assert_eq!(submitted.flags, FLAG_MISSED_DISPLAY_TARGET);
    assert_eq!(submitted.presentation_queue_depth, 1);
    assert_eq!(submitted.renderer_instance_id, 4);
    assert_eq!(submitted.presentation_target_display_time_ns, 1_000);
    let again = renderer.frame_identity(&scene, 11, 12);
    assert!(again.reused_scene);
    let sample = presented_frame_sample(
        1,
        10,
        Float64::from_bits(0),
        TimePoint { nanoseconds: 100 },
        TimePoint { nanoseconds: 500 },
        TimeSpan { nanoseconds: 50 },
        None,
    );
    assert_eq!(sample.presented_at, TimePoint { nanoseconds: 450 });
    let shown = renderer.presented(1_001_001, 1_001_005, 10, again, target, sample);
    assert_eq!(shown.kind, FrameTraceEventKind::DrawablePresented);
    assert_eq!(shown.timestamp_ns, 1_001_001);
    assert_eq!(shown.drawable_id, 11);
    assert_eq!(shown.flags, FLAG_PRESENTED_AFTER_DISPLAY_TARGET | FLAG_REUSED_SCENE);
    let dropped = renderer.presented(
        0,
        7,
        99,
        frame,
        DisplayTarget { time_ns: 0, tick_sequence: 0 },
        sample,
    );
    assert_eq!(dropped.kind, FrameTraceEventKind::DrawableDropped);
    assert_eq!(dropped.timestamp_ns, 7);
    assert_eq!(
        dropped.flags,
        FLAG_PRESENTATION_TIMESTAMP_INVALID
            | FLAG_DISPLAY_TARGET_INVALID
            | FLAG_QUEUE_DEPTH_UNDERFLOW
            | FLAG_DRAWABLE_ID_MISMATCH
    );
    assert_eq!(renderer.take_presented_frame_samples().len(), 2);
    assert!(renderer.take_presented_frame_samples().is_empty());
}

#[test]
fn a_frame_is_not_shown_before_it_was_submitted() {
    let submitted_at = TimePoint { nanoseconds: 100 };
    for delay in [450, 600] {
        let sample = presented_frame_sample(
            1,
            2,
            Float64::from_bits(0),
            submitted_at,
            TimePoint { nanoseconds: 500 },
            TimeSpan { nanoseconds: delay },
            None,
        );
        assert_eq!(sample.presented_at, submitted_at);
    }
}

#[test]
fn device_times_are_checked() {
    let valid = gpu_completed_event(9, 5, 7, 3, 1);
    assert_eq!((valid.timestamp_ns, valid.flags), (7, 0));
    let reversed = gpu_completed_event(9, 7, 5, 3, 1);
    assert_eq!(reversed.flags, FLAG_GPU_TIMESTAMPS_INVALID);
    let missing = gpu_completed_event(9, 0, 0, 3, 1);
    assert_eq!((missing.timestamp_ns, missing.flags), (9, FLAG_GPU_TIMESTAMPS_INVALID));
    let scheduled = gpu_scheduled_event(4, 3, 2);
    assert_eq!(scheduled.kind, FrameTraceEventKind::GpuScheduled);
    assert_eq!((scheduled.command_buffer_id, scheduled.presentation_queue_depth), (3, 2));
}

#[test]
fn path_textures_come_from_the_root_where_they_fit() {
    assert_eq!(path_texture_for_viewport(Some(size(4, 4)), size(4, 4)), PathTexture::Root);
    assert_eq!(path_texture_for_viewport(Some(size(4, 4)), size(4, 5)), PathTexture::New);
    assert_eq!(path_texture_for_viewport(None, size(0, 5)), PathTexture::Unavailable);
}

#[test]
fn compared_images_may_be_swapped() {
    let first = (0..64u8).map(|value| value.wrapping_mul(37)).collect::<Vec<_>>();
    let second = (0..64u8).map(|value| value.wrapping_mul(91)).collect::<Vec<_>>();
    let regions = [RasterComparisonRegion { x: 0, y: 1, width: 3, height: 3 }];
    let sample = compare_bgra_images(&first, &second, 4, 4, 16, &regions);
    assert_eq!(sample, compare_bgra_images(&second, &first, 4, 4, 16, &regions));
    assert!(sample.ssim_ppb < 1_000_000_000);
}

#[test]
fn parts_drawn_apart_share_the_required_size() {
    let mut scene = Scene::default();
    for _ in 0..3 {
        scene.insert_primitive(quad().into());
    }
    scene.finish();
    let alone = required_instance_buffer_size(&scene, &SIZES);
    scene.raster_compositor_surfaces.push(surface(1, 10.));
    let mut owners = RasterCacheOwners::new();
    let cache = RasterCacheHandle::new(&mut owners, RasterCacheConfig::default());
    let mut batch = |deferred: bool, quads: usize| {
        let mut drawn = Scene::default();
        for _ in 0..quads {
            drawn.insert_primitive(quad().into());
        }
        drawn.finish();
        RasterTileUpdateBatch {
            cache: cache.duplicate(&mut owners),
            texture_size: size(10, 10),
            gutter: 0,
            targets: Vec::new(),
            scene: drawn,
            deferred,
            verify: false,
        }
    };
    scene.raster_tile_update_batches.push(batch(true, 2));
    assert_eq!(required_instance_buffer_size(&scene, &SIZES), alone);
    scene.raster_tile_update_batches.push(batch(false, 1));
    let with_batch = required_instance_buffer_size(&scene, &SIZES);
    assert_eq!(with_batch, 256 + alone);
    scene.raster_tile_update_batches.push(batch(true, 20));
    assert_eq!(required_instance_buffer_size(&scene, &SIZES), 20 * 160);
}

#[test]
fn builtin_devices_of_low_power_come_first() {
    let device = |removable: bool, low_power: bool| DeviceTraits { removable, low_power };
    assert_eq!(choose_device(&vec![]), None);
    assert_eq!(choose_device(&vec![device(true, true), device(false, false)]), Some(1));
    assert_eq!(
        choose_device(&vec![device(false, false), device(false, true), device(false, true)]),
        Some(1)
    );
}

#[test]
fn what_is_written_to_the_device() {
    let vertices = unit_vertices();
    let one = u64::from(1.0f32.to_bits());
    assert_eq!(vertices, vec![0, one, one << 32, one << 32, one, (one << 32) | one]);
    let style = path_rasterization_style(&ScenePath {
        content_mask: ContentMask { bounds: rect(5., 0., 10., 10.) },
        ..path(1, rect(0., 0., 10., 10.), 3)
    });
    assert_eq!(style.bounds, between(5., 0., 10., 10.));
    assert_eq!(style.style, 5);
    let surface = PaintSurface {
        order: 0,
        bounds: rect(0., 0., 1., 1.),
        content_mask: ContentMask { bounds: rect(0., 0., 2., 2.) },
        image: 3,
    };
    assert_eq!(surface_bounds(&surface).content_mask, surface.content_mask);
}

fn surface(compositor_id: u64, width: f32) -> RasterCompositorSurface {
    RasterCompositorSurface {
        compositor_id,
        captured_transform: RasterCompositorTransform::default(),
        clip_bounds: rectangle(0., 0., width, 10.),
        raster_bounds: rectangle(-5., -5., 20., 20.),
        scene: Scene::default(),
    }
}

#[test]
fn layers_follow_the_surfaces_of_a_scene() {
    let mut layers = RasterCompositorLayers::new();
    let mut scene = Scene::default();
    scene.raster_compositor_surfaces.push(surface(1, 10.));
    scene.raster_compositor_surfaces.push(surface(2, 10.));
    layers.synchronize(&scene);
    assert_eq!(layers.layers.len(), 2);
    assert!(layers.layers[0].apply(3, true, Some(TimePoint { nanoseconds: 9 }), now(50)));
    assert!(layers.layers[1].apply(4, true, None, now(50)));
    layers.synchronize(&scene);
    assert!(layers.layers[0].last_applied.is_some());
    scene.raster_compositor_surfaces[0] = surface(1, 11.);
    layers.synchronize(&scene);
    assert!(layers.layers[0].last_applied.is_none());
    assert!(layers.layers[1].last_applied.is_some());
    // Sizes tell rectangles apart whose edges round to the same.
    let far = |width: f32| {
        let mut far = surface(1, 10.);
        far.clip_bounds = rectangle(1e8, 0., width, 10.);
        far
    };
    scene.raster_compositor_surfaces[0] = far(1.);
    layers.synchronize(&scene);
    assert!(layers.layers[0].apply(5, true, None, now(60)));
    layers.synchronize(&scene);
    assert!(layers.layers[0].last_applied.is_some());
    scene.raster_compositor_surfaces[0] = far(2.);
    layers.synchronize(&scene);
    assert!(layers.layers[0].last_applied.is_none());
    scene.raster_compositor_surfaces.remove(0);
    layers.synchronize(&scene);
    assert_eq!(layers.layers.len(), 1);
    assert_eq!(layers.layers[0].compositor_id, 2);
    assert_eq!(layers.find(1), None);
    assert_eq!(layers.find(2), Some(0));
}

fn now(nanoseconds: u64) -> TimePoint {
    TimePoint { nanoseconds }
}

#[test]
fn a_revision_is_applied_and_seen_once() {
    let mut layer = RasterCompositorLayer {
        compositor_id: 6,
        captured_transform: RasterCompositorTransform::default(),
        clip_bounds: rectangle(0., 0., 1., 1.),
        raster_bounds: rectangle(0., 0., 1., 1.),
        last_applied: None,
        last_presented_revision: None,
    };
    assert!(layer.observe(true, now(1)).is_none());
    assert!(!layer.apply(3, false, Some(now(2)), now(3)));
    assert!(layer.apply(3, true, Some(now(2)), now(3)));
    assert!(!layer.apply(3, true, Some(now(2)), now(4)));
    assert!(layer.observe(false, now(5)).is_none());
    let sample = layer.observe(true, now(6)).unwrap();
    assert_eq!((sample.compositor_id, sample.revision), (6, 3));
    assert_eq!((sample.updated_at, sample.presented_at), (now(2), now(6)));
    assert!(layer.observe(true, now(7)).is_none());
    assert!(layer.apply(4, true, None, now(8)));
    assert_eq!(layer.observe(true, now(9)).unwrap().updated_at, now(8));
}

#[test]
fn sprites_of_one_texture_share_a_batch() {
    let mut scene = Scene::default();
    let glyph = |texture: u32, tile_id: u32| MonochromeSprite {
        order: 0,
        bounds: rect(0., 0., 1., 1.),
        content_mask: ContentMask { bounds: rect(0., 0., 1., 1.) },
        tile: AtlasTile { texture_id: AtlasTextureId { index: texture, kind: 0 }, tile_id },
        transformation: TransformationMatrix::unit(),
        style: 0,
    };
    scene.push_layer(rect(0., 0., 9., 9.));
    for (texture, tile_id) in [(1, 1), (1, 2), (2, 3)] {
        scene.insert_primitive(glyph(texture, tile_id).into());
    }
    scene.pop_layer();
    scene.finish();
    assert_eq!(scene.batches().len(), 2);
    assert_eq!(required_instance_buffer_size(&scene, &SIZES), 256 + 96);
}
