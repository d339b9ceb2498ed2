use raster_scene::frame_trace::{
    active_run_id_hash, current_appkit_input_sequence_id, enter_current_appkit_input_sequence_id,
    is_detailed_enabled, is_enabled, latest_input_sequence_id, next_display_tick_sequence_id,
    next_gpui_window_frame_id, next_logical_frame_id, next_renderer_instance_id, record,
    record_display_link_delivery, record_input, record_platform_input_delivery, start,
    start_with_level, stop_and_snapshot, AppKitInputRoute, FrameTrace,
};
use raster_scene::trace_buffer::{FrameTraceBuffer, SlotClaim, SlotObservation};
use raster_scene::trace_event::{
    encode_drawable_id, mach_ticks_to_ns, monotonic_time_ns, FrameSubmissionSkipReason,
    FrameTraceCaptureLevel, FrameTraceDisplayTick, FrameTraceEvent, FrameTraceEventKind,
    FrameTraceInput, FrameTraceInputKind, FrameTraceInputPhase, MachTimebase,
    FLAG_DISPLAY_CURRENT_INVALID, FLAG_DISPLAY_TARGET_INVALID, FLAG_PHYSICAL_INPUT,
    FLAG_SYNTHETIC_INPUT,
};
use raster_scene::float_bits::Float64;

fn event(kind: FrameTraceEventKind) -> FrameTraceEvent {
    FrameTraceEvent::now(kind, 1)
}

fn pointer_move(received_time_ns: u64) -> FrameTraceInput {
    FrameTraceInput {
        received_time_ns,
        physical_time_ns: 5,
        kind: FrameTraceInputKind::PointerMove,
        phase: FrameTraceInputPhase::Moved,
        native_event_type: 5,
        momentum_phase: 0,
        native_event_number: 7,
        parent_input_sequence_id: 0,
        flags: FLAG_PHYSICAL_INPUT,
    }
}

fn tick() -> FrameTraceDisplayTick {
    FrameTraceDisplayTick {
        display_id: 3,
        sequence: 40,
        worker_callback_time_ns: 10,
        current_host_time_raw: 20,
        output_host_time_raw: 30,
        video_refresh_period: 1,
        video_time_scale: 60,
        rate_scalar: Float64::from_bits(1.0f64.to_bits()),
        refresh_period_ns: 16_666_667,
        main_queue_delivery_time_ns: 50,
        coalesced_count: 2,
        flags: 0,
    }
}

#[test]
fn reference_capture_retains_only_direct_chain_events() {
    let mut trace = FrameTrace::new();
    assert!(start_with_level(&mut trace, 16, FrameTraceCaptureLevel::Reference, 7, 1));
    assert!(!is_detailed_enabled(&trace));

    record(&mut trace, event(FrameTraceEventKind::LogicalFrameStarted));
    let physical_input_sequence_id = record_input(&mut trace, pointer_move(10));
    let synthetic_input_sequence_id = record_input(
        &mut trace,
        FrameTraceInput {
            received_time_ns: 20,
            physical_time_ns: 0,
            kind: FrameTraceInputKind::Magnify,
            phase: FrameTraceInputPhase::Moved,
            native_event_type: 0,
            momentum_phase: 0,
            native_event_number: 0,
            parent_input_sequence_id: physical_input_sequence_id,
            flags: FLAG_SYNTHETIC_INPUT,
        },
    );

    let mut submitted = event(FrameTraceEventKind::CommandBufferSubmitted);
    submitted.input_sequence_id = synthetic_input_sequence_id;
    submitted.logical_frame_id = 91;
    submitted.renderer_instance_id = 3;
    submitted.renderer_frame_id = 4;
    submitted.drawable_id = 5;
    submitted.command_buffer_id = 6;
    record(&mut trace, submitted);

    let mut presented = submitted;
    presented.kind = FrameTraceEventKind::DrawablePresented;
    record(&mut trace, presented);
    let mut dropped = submitted;
    dropped.kind = FrameTraceEventKind::DrawableDropped;
    record(&mut trace, dropped);

    let Some(snapshot) = stop_and_snapshot(&mut trace, 99) else {
        panic!("reference trace must produce one snapshot");
    };
    assert_eq!(snapshot.run_id_hash, 7);
    assert_eq!(
        snapshot.events.iter().map(|event| event.kind).collect::<Vec<_>>(),
        vec![
            FrameTraceEventKind::TraceStarted,
            FrameTraceEventKind::InputReceived,
            FrameTraceEventKind::InputReceived,
            FrameTraceEventKind::CommandBufferSubmitted,
            FrameTraceEventKind::DrawablePresented,
            FrameTraceEventKind::DrawableDropped,
            FrameTraceEventKind::TraceStopped,
        ]
    );
    assert_eq!(snapshot.events[3].logical_frame_id, 91);
    assert_eq!(snapshot.events[3].input_sequence_id, synthetic_input_sequence_id);
    assert!(!is_enabled(&trace));
    assert_eq!(active_run_id_hash(&trace), 0);
    assert!(!is_detailed_enabled(&trace));
}

#[test]
fn bounded_trace_retains_the_newest_events_after_wrapping() {
    let mut trace = FrameTraceBuffer::new(2);
    trace.record(event(FrameTraceEventKind::TraceStarted));
    trace.record(event(FrameTraceEventKind::TraceStopped));
    trace.record(event(FrameTraceEventKind::LogicalFrameStarted));
    let snapshot = trace.stop_and_snapshot(9, 0).unwrap();
    assert_eq!(snapshot.events.len(), 2);
    assert_eq!(snapshot.overwritten_events, 2);
    assert_eq!(snapshot.superseded_writes, 0);
    assert_eq!(snapshot.contended_writes, 0);
    assert_eq!(snapshot.events[0].event_sequence_id, 3);
    assert_eq!(snapshot.events[1].event_sequence_id, 4);
}

#[test]
fn a_snapshot_counts_what_it_has_lost() {
    for (capacity, recorded) in [(1, 0), (1, 5), (4, 2), (4, 3), (4, 4), (3, 100)] {
        let mut buffer = FrameTraceBuffer::new(capacity);
        for number in 0..recorded {
            let mut numbered = event(FrameTraceEventKind::InputReceived);
            numbered.logical_frame_id = number + 1;
            assert!(buffer.record(numbered));
        }
        let snapshot = buffer.stop_and_snapshot(9, 3).expect("the first snapshot");
        let kept = (recorded + 1).min(capacity as u64);
        assert_eq!(snapshot.capacity, capacity);
        assert_eq!(snapshot.events.len() as u64, kept);
        assert_eq!(snapshot.overwritten_events, recorded + 1 - kept);
        assert_eq!((snapshot.superseded_writes, snapshot.contended_writes), (0, 0));
        let first = recorded + 2 - kept;
        for (place, kept) in snapshot.events.iter().enumerate() {
            let number = first + place as u64;
            assert_eq!(kept.event_sequence_id, number);
            if number <= recorded {
                assert_eq!(kept.logical_frame_id, number);
            } else {
                assert_eq!(kept.kind, FrameTraceEventKind::TraceStopped);
            }
        }
        assert!(!buffer.record(event(FrameTraceEventKind::InputReceived)));
        assert!(buffer.stop_and_snapshot(10, 3).is_none());
    }
}

#[test]
fn a_trace_is_enabled_from_start_to_stop() {
    let mut trace = FrameTrace::new();
    assert!(stop_and_snapshot(&mut trace, 1).is_none());
    assert_eq!(record_input(&mut trace, pointer_move(1)), 0);
    assert!(!start(&mut trace, 0, 4, 1));
    assert!(!is_enabled(&trace));
    assert!(start(&mut trace, 8, 4, 1));
    assert!(is_enabled(&trace) && is_detailed_enabled(&trace));
    let first = record_input(&mut trace, pointer_move(2));
    let second = record_input(&mut trace, pointer_move(3));
    assert!(0 < first && first < second);
    assert_eq!(latest_input_sequence_id(&trace), second);
    assert!(stop_and_snapshot(&mut trace, 5).is_some());
    assert_eq!(record_input(&mut trace, pointer_move(6)), 0);
    assert_eq!(latest_input_sequence_id(&trace), second);
    assert!(!is_enabled(&trace) && !is_detailed_enabled(&trace));
    assert_eq!(active_run_id_hash(&trace), 0);
    assert!(stop_and_snapshot(&mut trace, 7).is_none());
    assert!(!start(&mut trace, 8, 4, 8));
}

#[test]
fn interleaved_writers_leave_the_marker_last() {
    let mut trace = FrameTraceBuffer::new(4);
    assert!(trace.register_writer());
    assert!(trace.register_writer());
    let first = trace.reserve();
    let second = trace.reserve();
    let seen_second = trace.observe(second);
    assert_eq!(trace.claim(second, seen_second), SlotClaim::Claimed);
    let seen_first = trace.observe(first);
    assert_eq!(trace.claim(first, seen_first), SlotClaim::Claimed);
    trace.publish(second, event(FrameTraceEventKind::EntityNotified));
    trace.publish(first, event(FrameTraceEventKind::WindowInvalidated));
    assert!(trace.begin_stop());
    assert!(!trace.register_writer());
    trace.unregister_writer();
    trace.unregister_writer();
    let snapshot = trace.finish_stop(77, 5);
    let ids: Vec<u64> = snapshot.events.iter().map(|event| event.event_sequence_id).collect();
    assert_eq!(ids, vec![1, 2, 3]);
    assert_eq!(snapshot.events[2].kind, FrameTraceEventKind::TraceStopped);
    assert_eq!(snapshot.events[2].timestamp_ns, 77);
    assert_eq!(snapshot.run_id_hash, 5);
    assert!(!trace.record(event(FrameTraceEventKind::EntityNotified)));
    assert!(trace.stop_and_snapshot(78, 5).is_none());
}

#[test]
fn a_slower_writer_gives_way_to_a_newer_event() {
    let mut trace = FrameTraceBuffer::new(1);
    let slow = trace.reserve();
    let fast = trace.reserve();
    let seen = trace.observe(fast);
    assert_eq!(trace.claim(fast, seen), SlotClaim::Claimed);
    // The slot is held, so the slower writer gives up.
    let held = trace.observe(slow);
    assert_eq!(held, SlotObservation { sequence: 2, writing: true });
    assert_eq!(trace.claim(slow, held), SlotClaim::Contended);
    trace.publish(fast, event(FrameTraceEventKind::GpuScheduled));
    // The slot holds a newer event, so an older one gives up as well.
    let filled = trace.observe(slow);
    assert_eq!(trace.claim(slow, filled), SlotClaim::Superseded);
    let snapshot = trace.stop_and_snapshot(3, 0).unwrap();
    assert_eq!(snapshot.contended_writes, 1);
    assert_eq!(snapshot.superseded_writes, 1);
    assert_eq!(snapshot.events.len(), 1);
    assert_eq!(snapshot.events[0].kind, FrameTraceEventKind::TraceStopped);
}

#[test]
fn a_claim_fails_where_the_slot_changed_after_it_was_observed() {
    let mut trace = FrameTraceBuffer::new(1);
    let first = trace.reserve();
    let second = trace.reserve();
    let seen = trace.observe(first);
    assert_eq!(trace.claim(first, seen), SlotClaim::Claimed);
    trace.publish(first, event(FrameTraceEventKind::GpuScheduled));
    assert_eq!(trace.claim(second, seen), SlotClaim::Contended);
    assert_eq!(trace.contended_writes, 1);
}

#[test]
fn detailed_capture_keeps_every_event() {
    let mut trace = FrameTrace::new();
    assert!(start(&mut trace, 8, 11, 1));
    assert!(is_enabled(&trace));
    assert!(is_detailed_enabled(&trace));
    assert_eq!(active_run_id_hash(&trace), 11);
    record(&mut trace, event(FrameTraceEventKind::LogicalFrameStarted));
    record_platform_input_delivery(&mut trace, 0, 2);
    record_platform_input_delivery(&mut trace, 6, 3);
    record_display_link_delivery(&mut trace, tick(), MachTimebase { numer: 2, denom: 1 });
    let snapshot = stop_and_snapshot(&mut trace, 4).unwrap();
    let kinds: Vec<FrameTraceEventKind> =
        snapshot.events.iter().map(|event| event.kind).collect();
    assert_eq!(
        kinds,
        vec![
            FrameTraceEventKind::TraceStarted,
            FrameTraceEventKind::LogicalFrameStarted,
            FrameTraceEventKind::PlatformInputDelivered,
            FrameTraceEventKind::DisplayLinkDelivered,
            FrameTraceEventKind::TraceStopped,
        ]
    );
    assert_eq!(snapshot.events[2].input_sequence_id, 6);
    assert_eq!(snapshot.events[2].timestamp_ns, 3);
    let delivered = snapshot.events[3];
    assert_eq!(delivered.timestamp_ns, 10);
    assert_eq!(delivered.callback_observed_ns, 50);
    assert_eq!(delivered.display_id, 3);
    assert_eq!(delivered.display_current_time_ns, 40);
    assert_eq!(delivered.presentation_target_display_time_ns, 60);
    assert_eq!(delivered.coalesced_display_tick_count, 2);
    assert_eq!(delivered.display_rate_scalar_bits, 1.0f64.to_bits());
}

#[test]
fn a_process_traces_once() {
    let mut trace = FrameTrace::new();
    assert!(stop_and_snapshot(&mut trace, 1).is_none());
    assert!(!start(&mut trace, 0, 1, 1));
    assert!(!is_enabled(&trace));
    assert!(start(&mut trace, 4, 1, 1));
    assert!(!start(&mut trace, 4, 2, 1));
    assert_eq!(active_run_id_hash(&trace), 1);
    assert!(stop_and_snapshot(&mut trace, 2).is_some());
    assert!(stop_and_snapshot(&mut trace, 3).is_none());
    assert!(!start(&mut trace, 4, 3, 4));
    assert_eq!(record_input(&mut trace, pointer_move(5)), 0);
}

#[test]
fn inputs_are_numbered_and_described() {
    let mut trace = FrameTrace::new();
    assert_eq!(record_input(&mut trace, pointer_move(1)), 0);
    assert_eq!(latest_input_sequence_id(&trace), 0);
    assert!(start_with_level(&mut trace, 8, FrameTraceCaptureLevel::Reference, 1, 1));
    assert_eq!(record_input(&mut trace, pointer_move(10)), 1);
    let mut other = pointer_move(20);
    other.kind = FrameTraceInputKind::Other;
    other.phase = FrameTraceInputPhase::NoPhase;
    other.momentum_phase = 9;
    assert_eq!(record_input(&mut trace, other), 2);
    assert_eq!(latest_input_sequence_id(&trace), 2);
    let snapshot = stop_and_snapshot(&mut trace, 30).unwrap();
    assert_eq!(snapshot.events[1].input_kind, 2);
    assert_eq!(snapshot.events[1].input_phase, 2);
    assert_eq!(snapshot.events[1].physical_input_time_ns, 5);
    assert_eq!(snapshot.events[1].native_event_number, 7);
    assert_eq!(snapshot.events[1].flags, FLAG_PHYSICAL_INPUT);
    assert_eq!(snapshot.events[2].timestamp_ns, 20);
    assert_eq!(snapshot.events[2].input_kind, 255);
    assert_eq!(snapshot.events[2].input_phase, 0);
    assert_eq!(snapshot.events[2].input_momentum_phase, 9);
}

#[test]
fn identifiers_count_up_separately() {
    let mut trace = FrameTrace::new();
    assert_eq!(next_logical_frame_id(&mut trace), 1);
    assert_eq!(next_logical_frame_id(&mut trace), 2);
    assert_eq!(next_gpui_window_frame_id(&mut trace), 1);
    assert_eq!(next_renderer_instance_id(&mut trace), 1);
    assert_eq!(next_display_tick_sequence_id(&mut trace), 1);
    assert_eq!(next_display_tick_sequence_id(&mut trace), 2);
    assert_eq!(next_logical_frame_id(&mut trace), 3);
}

#[test]
fn nested_scopes_restore_the_routed_input() {
    let mut route = AppKitInputRoute::new();
    assert_eq!(current_appkit_input_sequence_id(&route), 0);
    let outer = enter_current_appkit_input_sequence_id(&mut route, 4);
    let inner = enter_current_appkit_input_sequence_id(&mut route, 9);
    assert_eq!(current_appkit_input_sequence_id(&route), 9);
    inner.leave(&mut route);
    assert_eq!(current_appkit_input_sequence_id(&route), 4);
    outer.leave(&mut route);
    assert_eq!(current_appkit_input_sequence_id(&route), 0);
}

#[test]
fn clocks_convert_and_saturate() {
    let third = MachTimebase { numer: 125, denom: 3 };
    assert_eq!(mach_ticks_to_ns(24, third), 1_000);
    assert_eq!(mach_ticks_to_ns(25, third), 1_041);
    assert_eq!(mach_ticks_to_ns(7, MachTimebase { numer: 1, denom: 0 }), 0);
    assert_eq!(mach_ticks_to_ns(u64::MAX, MachTimebase { numer: 2, denom: 1 }), u64::MAX);
    assert_eq!(monotonic_time_ns(12), 12);
    assert_eq!(monotonic_time_ns(u128::MAX), u64::MAX);
    assert_eq!(encode_drawable_id(0), 1);
    assert_eq!(encode_drawable_id(u64::MAX), u64::MAX);
}

#[test]
fn invalid_tick_times_read_as_zero() {
    let even = MachTimebase { numer: 1, denom: 1 };
    let mut sample = tick();
    assert_eq!(sample.current_time_ns(even), 20);
    assert_eq!(sample.target_time_ns(even), 30);
    sample.flags = FLAG_DISPLAY_CURRENT_INVALID;
    assert_eq!(sample.current_time_ns(even), 0);
    assert_eq!(sample.target_time_ns(even), 30);
    sample.flags = FLAG_DISPLAY_TARGET_INVALID;
    assert_eq!(sample.current_time_ns(even), 20);
    assert_eq!(sample.target_time_ns(even), 0);
}

#[test]
fn skip_reasons_and_input_codes_are_stable() {
    assert_eq!(FrameSubmissionSkipReason::NextDrawableUnavailable.code(), 1);
    assert_eq!(FrameSubmissionSkipReason::InstanceBufferLimit.code(), 2);
    assert_eq!(FrameSubmissionSkipReason::EncodeRetryExhausted.code(), 3);
    assert_eq!(FrameSubmissionSkipReason::DiagnosticHold.code(), 4);
    assert_eq!(FrameTraceInputKind::PointerDown.code(), 1);
    assert_eq!(FrameTraceInputKind::ModifiersChanged.code(), 8);
    assert_eq!(FrameTraceInputPhase::Ended.code(), 3);
}
