use raster_scene::display_link::{
    frame_trace_delivery, DisplayLink, DisplayLinkCallbackState, DisplayLinkTraceSnapshot,
    DisplayTimeStamp, TIME_STAMP_HOST_TIME_VALID, TIME_STAMP_RATE_SCALAR_VALID,
    TIME_STAMP_REFRESH_PERIOD_VALID,
};
use raster_scene::float_bits::Float64;
use raster_scene::trace_event::{
    MachTimebase, FLAG_DISPLAY_CURRENT_INVALID, FLAG_DISPLAY_REFRESH_INVALID,
    FLAG_DISPLAY_TARGET_INVALID,
};

const TICKS: MachTimebase = MachTimebase { numer: 1, denom: 1 };

fn rate(value: f64) -> Float64 {
    Float64::from_bits(value.to_bits())
}

fn measured(snapshot: &DisplayLinkTraceSnapshot) -> u64 {
    (snapshot.video_refresh_period as f64 * 1_000_000_000.0
        / snapshot.video_time_scale as f64
        / f64::from_bits(snapshot.rate_scalar.bits))
    .round() as u64
}

fn snapshot(callback_count: u64) -> DisplayLinkTraceSnapshot {
    DisplayLinkTraceSnapshot {
        callback_host_time: 10,
        current_host_time_raw: 20,
        output_host_time_raw: 30,
        video_refresh_period: 1,
        video_time_scale: 60,
        rate_scalar: rate(1.0),
        current_valid: true,
        output_valid: true,
        refresh_valid: true,
        sequence: 40,
        callback_count,
    }
}

fn stamp(flags: u64) -> DisplayTimeStamp {
    DisplayTimeStamp {
        video_time_scale: 60,
        host_time: 1_234,
        rate_scalar: rate(1.0),
        video_refresh_period: 1,
        flags,
    }
}

#[test]
fn frame_trace_delivery_reports_coalesced_callbacks_without_reusing_state() {
    let latest = snapshot(4);
    let tick = frame_trace_delivery(7, latest, 1, 50, measured(&latest), TICKS).unwrap();
    assert_eq!(tick.display_id, 7);
    assert_eq!(tick.sequence, 40);
    assert_eq!(tick.coalesced_count, 3);
    assert_eq!(tick.main_queue_delivery_time_ns, 50);
    assert_eq!(tick.refresh_period_ns, 16_666_667);
    assert!(frame_trace_delivery(7, latest, 4, 51, measured(&latest), TICKS).is_none());
}

#[test]
fn frame_trace_delivery_marks_current_target_and_refresh_independently_invalid() {
    let mut invalid = snapshot(1);
    invalid.current_valid = false;
    invalid.output_valid = false;
    invalid.refresh_valid = false;
    let tick = frame_trace_delivery(9, invalid, 0, 60, measured(&invalid), TICKS).unwrap();
    assert_ne!(tick.flags & FLAG_DISPLAY_CURRENT_INVALID, 0);
    assert_ne!(tick.flags & FLAG_DISPLAY_TARGET_INVALID, 0);
    assert_ne!(tick.flags & FLAG_DISPLAY_REFRESH_INVALID, 0);
    assert_eq!(tick.refresh_period_ns, 0);
    assert_eq!(tick.current_host_time_raw, 20);
    assert_eq!(tick.output_host_time_raw, 30);
}

#[test]
fn a_refresh_period_of_zero_is_invalid() {
    let tick = frame_trace_delivery(9, snapshot(1), 0, 60, 0, TICKS).unwrap();
    assert_eq!(tick.flags, FLAG_DISPLAY_REFRESH_INVALID);
    assert_eq!(tick.worker_callback_time_ns, 10);
}

#[test]
fn callbacks_publish_what_they_were_told() {
    let mut state = DisplayLinkCallbackState::new();
    let all = TIME_STAMP_HOST_TIME_VALID
        | TIME_STAMP_REFRESH_PERIOD_VALID
        | TIME_STAMP_RATE_SCALAR_VALID;
    state.record_callback(5, Some(stamp(TIME_STAMP_HOST_TIME_VALID)), Some(stamp(all)), 8);
    assert_eq!(state.snapshot_version, 2);
    assert!(state.latest.current_valid && state.latest.output_valid && state.latest.refresh_valid);
    assert_eq!(state.latest.sequence, 8);
    assert_eq!(state.latest.callback_count, 1);
    assert_eq!(state.latest.output_host_time_raw, 1_234);
    for bad in [0.0, -1.0, f64::INFINITY, f64::NAN] {
        let mut output = stamp(all);
        output.rate_scalar = rate(bad);
        state.record_callback(5, None, Some(output), 9);
        assert!(!state.latest.current_valid);
        assert!(!state.latest.refresh_valid);
    }
    let mut output = stamp(all);
    output.video_time_scale = 0;
    state.record_callback(5, None, Some(output), 9);
    assert!(!state.latest.refresh_valid);
    state.record_callback(6, None, None, 10);
    assert!(!state.latest.output_valid);
    assert_eq!(state.latest.output_host_time_raw, 0);
    assert_eq!(state.latest.callback_count, 7);
    assert_eq!(state.snapshot_version, 14);
}

#[test]
fn deliveries_are_taken_once_and_never_torn() {
    let mut link = DisplayLink::new(3);
    assert!(link.take_trace_delivery(1, snapshot(2), 1, 9, 1, TICKS).is_none());
    assert!(link.take_trace_delivery(2, snapshot(2), 4, 9, 1, TICKS).is_none());
    assert_eq!(link.last_delivered_callback_count, 0);
    let tick = link.take_trace_delivery(4, snapshot(2), 4, 9, 1, TICKS).unwrap();
    assert_eq!(tick.coalesced_count, 2);
    assert_eq!(tick.display_id, 3);
    assert!(link.take_trace_delivery(4, snapshot(2), 4, 9, 1, TICKS).is_none());
    let next = link.take_trace_delivery(10, snapshot(5), 10, 9, 1, TICKS).unwrap();
    assert_eq!(next.coalesced_count, 3);
}
