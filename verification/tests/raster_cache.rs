use raster_scene::compositor_transform::{
    coherent_snapshot, find_time, note_update, reading_is_coherent, writing_may_begin, CompositorIds,
    RasterCompositorTransform, RasterCompositorTransformHandle,
};
use raster_scene::float_bits::{Float32, Float64};
use raster_scene::geometry::Point;
use raster_scene::raster_cache::{
    FramePresentationSample, RasterCacheConfig, RasterCacheHandle, RasterCacheOwners,
    RasterCompositorPresentationSample, RasterTileKey, RasterTileRevision,
    DEFAULT_RASTER_CACHE_HARD_LIMIT_BYTES, DEFAULT_RASTER_CACHE_SOFT_LIMIT_BYTES,
};
use raster_scene::time::{TimePoint, TimeSpan};

fn float(value: f32) -> Float32 {
    Float32::from_bits(value.to_bits())
}

fn transform(scale: f32, x: f32, y: f32) -> RasterCompositorTransform {
    RasterCompositorTransform { scale: float(scale), translation: Point::new(float(x), float(y)) }
}

fn at(nanoseconds: u64) -> TimePoint {
    TimePoint { nanoseconds }
}

fn default_handle() -> RasterCompositorTransformHandle {
    let mut ids = CompositorIds::new();
    RasterCompositorTransformHandle::new(&mut ids, RasterCompositorTransform::default(), at(1))
        .expect("default transform is valid")
}

#[test]
fn cache_config_rejects_invalid_limits() {
    assert_eq!(RasterCacheConfig::new(0, 1), None);
    assert_eq!(RasterCacheConfig::new(2, 1), None);
    let config = RasterCacheConfig::new(1, 2).unwrap();
    assert_eq!(config.soft_limit_bytes(), 1);
    assert_eq!(config.hard_limit_bytes(), 2);
    assert_eq!(RasterCacheConfig::new(1, 2), Some(config));
}

#[test]
fn default_limits_are_those_of_the_constants() {
    let config = RasterCacheConfig::default();
    assert_eq!(config.soft_limit_bytes(), DEFAULT_RASTER_CACHE_SOFT_LIMIT_BYTES);
    assert_eq!(config.hard_limit_bytes(), DEFAULT_RASTER_CACHE_HARD_LIMIT_BYTES);
    assert_eq!(config.soft_limit_bytes(), 234_881_024);
    assert_eq!(config.hard_limit_bytes(), 268_435_456);
}

#[test]
fn cache_handles_are_unique_and_clones_share_identity() {
    let mut owners = RasterCacheOwners::new();
    let first = RasterCacheHandle::new(&mut owners, RasterCacheConfig::default());
    let first_clone = first.duplicate(&mut owners);
    let second = RasterCacheHandle::new(&mut owners, RasterCacheConfig::default());

    assert_eq!(first, first_clone);
    assert_ne!(first, second);
}

#[test]
fn weak_cache_identity_expires_after_last_handle_is_dropped() {
    let mut owners = RasterCacheOwners::new();
    let handle = RasterCacheHandle::new(&mut owners, RasterCacheConfig::default());
    let weak = handle.weak_identity();
    let clone = handle.duplicate(&mut owners);
    handle.release(&mut owners);
    let upgraded = weak.upgrade(&mut owners);
    assert!(upgraded.is_some());
    upgraded.unwrap().release(&mut owners);
    clone.release(&mut owners);
    assert!(weak.upgrade(&mut owners).is_none());
}

#[test]
fn a_handle_of_a_cache_that_is_gone_changes_nothing_when_released() {
    let mut owners = RasterCacheOwners::new();
    let handle = RasterCacheHandle::new(&mut owners, RasterCacheConfig::default());
    let other = RasterCacheHandle { identity: handle.weak_identity() };
    let id = handle.id();
    handle.release(&mut owners);
    assert!(!owners.is_held(id));
    other.release(&mut owners);
    assert!(!owners.is_held(id));
}

#[test]
fn hits_and_misses_name_their_tile() {
    let mut owners = RasterCacheOwners::new();
    let handle = RasterCacheHandle::new(&mut owners, RasterCacheConfig::new(10, 20).unwrap());
    let hit = handle.tile_hit(&mut owners, RasterTileKey::new(4), RasterTileRevision::new(5), 6);
    assert_eq!(hit.cache, handle);
    assert_eq!(hit.cache.config(), handle.config());
    assert_eq!(hit.key.value(), 4);
    assert_eq!(hit.revision.value(), 5);
    assert_eq!(hit.gutter, 6);
    let miss = handle.tile_miss(&mut owners, RasterTileKey::new(7), RasterTileRevision::new(8));
    assert_eq!(miss.cache, handle);
    assert_eq!(miss.key.value(), 7);
    assert_eq!(miss.revision.value(), 8);
}

#[test]
fn compositor_transform_rejects_invalid_updates() {
    let mut handle = default_handle();
    assert!(!handle.update(transform(0., 10., 20.), at(2)));
    assert_eq!(handle.snapshot(), (0, RasterCompositorTransform::default()));
}

#[test]
fn compositor_transform_publishes_timestamp_with_revision() {
    let mut handle = default_handle();
    assert!(handle.update(transform(2., 20., 30.), at(2)));

    let (revision, _) = handle.snapshot();
    assert_eq!(revision, 1);
    assert!(handle.updated_at(revision).is_some());
}

#[test]
fn compositor_transform_preserves_input_time_and_skips_identical_updates() {
    let mut handle = default_handle();
    let observed_at = at(1_000);
    let moved = transform(2., 20., 30.);
    assert!(handle.update_at(moved, observed_at));
    assert!(!handle.update_at(moved, at(4_000)));

    let (revision, _) = handle.snapshot();
    assert_eq!(revision, 1);
    assert_eq!(handle.updated_at(revision), Some(observed_at));
}

#[test]
fn invalid_transforms_make_no_handle() {
    let mut ids = CompositorIds::new();
    for invalid in [
        transform(f32::NAN, 0., 0.),
        transform(f32::INFINITY, 0., 0.),
        transform(-1., 0., 0.),
        transform(-0., 0., 0.),
        transform(1., f32::NEG_INFINITY, 0.),
        transform(1., 0., f32::NAN),
    ] {
        assert!(RasterCompositorTransformHandle::new(&mut ids, invalid, at(1)).is_none());
        assert!(RasterCompositorTransform::new(invalid.scale, invalid.translation).is_none());
    }
    let first =
        RasterCompositorTransformHandle::new(&mut ids, transform(1.5, -3., 4.), at(1)).unwrap();
    let second =
        RasterCompositorTransformHandle::new(&mut ids, transform(1.5, -3., 4.), at(1)).unwrap();
    assert_eq!(first.id(), 1);
    assert_eq!(second.id(), 2);
    assert!(first != second);
    assert_eq!(first.snapshot(), (0, transform(1.5, -3., 4.)));
}

#[test]
fn zeros_of_either_sign_are_the_same_transform() {
    let mut handle = default_handle();
    assert!(!handle.update(transform(1., -0., 0.), at(2)));
    assert_eq!(handle.snapshot().0, 0);
}

#[test]
fn only_the_latest_update_times_are_remembered() {
    let mut handle = default_handle();
    for value in 1..=200u32 {
        assert!(handle.update(transform(value as f32 + 1., 0., 0.), at(u64::from(value) * 10)));
    }
    assert_eq!(handle.snapshot().0, 200);
    assert_eq!(handle.updated_at(200), Some(at(2_000)));
    assert_eq!(handle.updated_at(73), Some(at(730)));
    assert_eq!(handle.updated_at(72), None);
    assert_eq!(handle.updated_at(201), None);
}

#[test]
fn times_are_noted_and_found_in_a_list() {
    let mut updates = std::collections::VecDeque::new();
    for revision in 0..200 {
        note_update(&mut updates, revision, at(revision * 3));
    }
    assert_eq!(updates.len(), 128);
    assert_eq!(find_time(&updates, 71), None);
    assert_eq!(find_time(&updates, 72), Some(at(216)));
    assert_eq!(find_time(&updates, 199), Some(at(597)));
}

#[test]
fn readings_are_coherent_only_on_one_even_generation() {
    assert!(reading_is_coherent(4, 4));
    assert!(!reading_is_coherent(5, 5));
    assert!(!reading_is_coherent(4, 6));
    let (scale, x, y) = (float(2.), float(3.), float(4.));
    assert_eq!(coherent_snapshot(4, scale, x, y, 4), Some((2, transform(2., 3., 4.))));
    assert_eq!(coherent_snapshot(5, scale, x, y, 5), None);
    assert_eq!(coherent_snapshot(4, scale, x, y, 6), None);
    assert_eq!(writing_may_begin(4), Some(6));
    assert_eq!(writing_may_begin(5), None);
    assert_eq!(writing_may_begin(u64::MAX - 1), Some(0));
}

#[test]
fn presentation_sample_reports_submission_latency() {
    let submitted_at = at(100);
    let observed_at = at(100 + 7_000_000);
    let sample = FramePresentationSample {
        frame_id: 1,
        drawable_id: 2,
        presented_time_seconds: Float64::from_bits(3.0f64.to_bits()),
        submitted_at,
        presented_at: observed_at,
        observed_at,
        gpu_duration: Some(TimeSpan { nanoseconds: 4_000_000 }),
    };

    assert_eq!(sample.submission_to_presentation(), TimeSpan { nanoseconds: 7_000_000 });
}

#[test]
fn latency_is_never_negative() {
    let sample = RasterCompositorPresentationSample {
        compositor_id: 1,
        revision: 2,
        updated_at: at(50),
        presented_at: at(80),
    };
    assert_eq!(sample.input_to_presentation(), TimeSpan { nanoseconds: 30 });
    let early = RasterCompositorPresentationSample { presented_at: at(20), ..sample };
    assert_eq!(early.input_to_presentation(), TimeSpan { nanoseconds: 0 });
}
