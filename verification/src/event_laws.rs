//! What the events of a frame trace say, and what their flags mean.
use vstd::prelude::*;

use crate::display_link::{
    delivered_tick, published, times_are_marked_independently, DisplayLinkTraceSnapshot,
    DisplayTimeStamp,
};
use crate::frame_trace::{delivery_event, input_event, tick_event};
use crate::presentation::{
    ended_event, frame_event, one_less, shown_at, with_flag, DisplayTarget, FrameIdentity,
};
use crate::scene::{SceneTrace, NO_TICK_FLAGS};
use crate::time::{TimePoint, TimeSpan};
use crate::trace_event::{
    spec_mach_ticks_to_ns, FrameSubmissionSkipReason, FrameTraceDisplayTick, FrameTraceEvent,
    FrameTraceEventKind, FrameTraceInput, FrameTraceInputKind, FrameTraceInputPhase, MachTimebase,
    FLAG_PHYSICAL_INPUT, FLAG_SYNTHETIC_INPUT, FLAG_MISSED_DISPLAY_TARGET,
    FLAG_PRESENTATION_TIMESTAMP_INVALID, FLAG_REUSED_SCENE, FLAG_DISPLAY_TARGET_INVALID,
    FLAG_GPU_TIMESTAMPS_INVALID, FLAG_QUEUE_DEPTH_UNDERFLOW, FLAG_DRAWABLE_ID_MISMATCH,
    FLAG_PRESENTED_AFTER_DISPLAY_TARGET, FLAG_INVALIDATION_ALREADY_DIRTY,
    FLAG_INVALIDATION_DURING_DRAW, FLAG_DISPLAY_CURRENT_INVALID, FLAG_DISPLAY_REFRESH_INVALID,
};

verus! {

/// Host ticks are converted by the ratio of the clock and rounded down; what 64 bits do not
/// hold comes out as the most that they do, and without a ratio there is no time. Later
/// ticks never come out as an earlier time.
pub proof fn ticks_are_converted_by_the_ratio(ticks: u64, later: u64, timebase: MachTimebase)
    ensures
        ({
            let time = spec_mach_ticks_to_ns(ticks, timebase);
            &&& timebase.denom == 0 ==> time == 0
            &&& timebase.denom > 0 ==> time * timebase.denom <= ticks * timebase.numer
            &&& timebase.denom > 0 && time < u64::MAX ==> ticks * timebase.numer < (time + 1)
                * timebase.denom
            &&& ticks <= later ==> time <= spec_mach_ticks_to_ns(later, timebase)
        }),
{
    let denom = timebase.denom as int;
    let numer = timebase.numer as int;
    let product = ticks * numer;
    assert(product >= 0) by (nonlinear_arith)
        requires
            product == ticks * numer,
            ticks >= 0,
            numer >= 0,
    ;
    if denom > 0 {
        let quotient = product / denom;
        vstd::arithmetic::div_mod::lemma_fundamental_div_mod(product, denom);
        assert(0 <= product % denom < denom);
        let time = spec_mach_ticks_to_ns(ticks, timebase) as int;
        assert(time * denom <= product) by (nonlinear_arith)
            requires
                time <= quotient,
                denom > 0,
                product == denom * quotient + product % denom,
                product % denom >= 0,
        ;
        if time < u64::MAX {
            assert(product < (time + 1) * denom) by (nonlinear_arith)
                requires
                    time == quotient,
                    denom > 0,
                    product == denom * quotient + product % denom,
                    product % denom < denom,
            ;
        }
        if ticks <= later {
            assert(product <= later * numer) by (nonlinear_arith)
                requires
                    product == ticks * numer,
                    ticks <= later,
                    numer >= 0,
            ;
            vstd::arithmetic::div_mod::lemma_div_is_ordered(product, later * numer, denom);
        }
    }
}

/// The time since an earlier point is what has to be added to that to get here; since a
/// later one there is none.
pub proof fn time_passes_from_the_earlier_point(point: TimePoint, earlier: TimePoint)
    ensures
        earlier.nanoseconds <= point.nanoseconds ==> earlier.nanoseconds + point.since(
            earlier,
        ).nanoseconds == point.nanoseconds,
        point.nanoseconds <= earlier.nanoseconds ==> point.since(earlier).nanoseconds == 0,
{
}

/// A frame was shown as long before the report as the report was late, but never before it
/// was submitted.
pub proof fn a_frame_is_shown_before_the_report(
    submitted_at: TimePoint,
    observed_at: TimePoint,
    callback_delay: TimeSpan,
)
    ensures
        ({
            let shown = shown_at(submitted_at, observed_at, callback_delay);
            &&& shown.nanoseconds >= submitted_at.nanoseconds
            &&& shown.nanoseconds + callback_delay.nanoseconds >= observed_at.nanoseconds
            &&& shown == submitted_at || shown.nanoseconds + callback_delay.nanoseconds
                == observed_at.nanoseconds
        }),
{
}

/// The codes by which inputs, phases and skipped submissions are traced. None is used twice,
/// and zero means that there is nothing of the sort.
pub proof fn codes_are_fixed()
    ensures
        FrameTraceInputKind::PointerDown.spec_code() == 1,
        FrameTraceInputKind::PointerMove.spec_code() == 2,
        FrameTraceInputKind::PointerUp.spec_code() == 3,
        FrameTraceInputKind::Scroll.spec_code() == 4,
        FrameTraceInputKind::Magnify.spec_code() == 5,
        FrameTraceInputKind::KeyDown.spec_code() == 6,
        FrameTraceInputKind::KeyUp.spec_code() == 7,
        FrameTraceInputKind::ModifiersChanged.spec_code() == 8,
        FrameTraceInputKind::Other.spec_code() == 255,
        FrameTraceInputPhase::NoPhase.spec_code() == 0,
        FrameTraceInputPhase::Started.spec_code() == 1,
        FrameTraceInputPhase::Moved.spec_code() == 2,
        FrameTraceInputPhase::Ended.spec_code() == 3,
        FrameSubmissionSkipReason::NextDrawableUnavailable.spec_code() == 1,
        FrameSubmissionSkipReason::InstanceBufferLimit.spec_code() == 2,
        FrameSubmissionSkipReason::EncodeRetryExhausted.spec_code() == 3,
        FrameSubmissionSkipReason::DiagnosticHold.spec_code() == 4,
        forall|a: FrameTraceInputKind, b: FrameTraceInputKind|
            #[trigger] a.spec_code() == #[trigger] b.spec_code() ==> a == b,
        forall|a: FrameTraceInputPhase, b: FrameTraceInputPhase|
            #[trigger] a.spec_code() == #[trigger] b.spec_code() ==> a == b,
        forall|a: FrameSubmissionSkipReason, b: FrameSubmissionSkipReason|
            #[trigger] a.spec_code() == #[trigger] b.spec_code() ==> a == b,
{
}

/// A reference capture keeps the start and the end of the trace, inputs that came in,
/// submissions, made or skipped, and what became of drawables, and nothing else.
pub proof fn a_reference_capture_keeps_the_chain(kind: FrameTraceEventKind)
    ensures
        kind.in_reference() <==> match kind {
            FrameTraceEventKind::TraceStarted | FrameTraceEventKind::TraceStopped => true,
            FrameTraceEventKind::InputReceived => true,
            FrameTraceEventKind::CommandBufferSubmitted => true,
            FrameTraceEventKind::FrameSubmissionSkipped => true,
            FrameTraceEventKind::DrawablePresented | FrameTraceEventKind::DrawableDropped => true,
            _ => false,
        },
{
}

/// An event says what happened and when, and nothing else, until it is told more.
pub proof fn an_event_begins_blank(kind: FrameTraceEventKind, timestamp_ns: u64)
    ensures
        FrameTraceEvent::spec_now(kind, timestamp_ns).kind == kind,
        FrameTraceEvent::spec_now(kind, timestamp_ns).timestamp_ns == timestamp_ns,
        FrameTraceEvent::spec_now(kind, timestamp_ns).presentation_token is None,
        FrameTraceEvent::spec_now(kind, timestamp_ns).event_sequence_id == 0,
        FrameTraceEvent::spec_now(kind, timestamp_ns).callback_observed_ns == 0,
        FrameTraceEvent::spec_now(kind, timestamp_ns).physical_input_time_ns == 0,
        FrameTraceEvent::spec_now(kind, timestamp_ns).input_sequence_id == 0,
        FrameTraceEvent::spec_now(kind, timestamp_ns).parent_input_sequence_id == 0,
        FrameTraceEvent::spec_now(kind, timestamp_ns).input_kind == 0,
        FrameTraceEvent::spec_now(kind, timestamp_ns).input_phase == 0,
        FrameTraceEvent::spec_now(kind, timestamp_ns).native_event_type == 0,
        FrameTraceEvent::spec_now(kind, timestamp_ns).input_momentum_phase == 0,
        FrameTraceEvent::spec_now(kind, timestamp_ns).native_event_number == 0,
        FrameTraceEvent::spec_now(kind, timestamp_ns).request_reason == 0,
        FrameTraceEvent::spec_now(kind, timestamp_ns).request_count == 0,
        FrameTraceEvent::spec_now(kind, timestamp_ns).coalesced_request_count == 0,
        FrameTraceEvent::spec_now(kind, timestamp_ns).dropped_request_count == 0,
        FrameTraceEvent::spec_now(kind, timestamp_ns).logical_frame_id == 0,
        FrameTraceEvent::spec_now(kind, timestamp_ns).gpui_window_frame_id == 0,
        FrameTraceEvent::spec_now(kind, timestamp_ns).renderer_instance_id == 0,
        FrameTraceEvent::spec_now(kind, timestamp_ns).renderer_frame_id == 0,
        FrameTraceEvent::spec_now(kind, timestamp_ns).drawable_id == 0,
        FrameTraceEvent::spec_now(kind, timestamp_ns).command_buffer_id == 0,
        FrameTraceEvent::spec_now(kind, timestamp_ns).display_id == 0,
        FrameTraceEvent::spec_now(kind, timestamp_ns).display_current_time_ns == 0,
        FrameTraceEvent::spec_now(kind, timestamp_ns).display_refresh_period_ns == 0,
        FrameTraceEvent::spec_now(kind, timestamp_ns).display_current_host_time_raw == 0,
        FrameTraceEvent::spec_now(kind, timestamp_ns).display_output_host_time_raw == 0,
        FrameTraceEvent::spec_now(kind, timestamp_ns).display_video_refresh_period == 0,
        FrameTraceEvent::spec_now(kind, timestamp_ns).display_video_time_scale == 0,
        FrameTraceEvent::spec_now(kind, timestamp_ns).display_rate_scalar_bits == 0,
        FrameTraceEvent::spec_now(kind, timestamp_ns).scene_build_display_tick_sequence == 0,
        FrameTraceEvent::spec_now(kind, timestamp_ns).scene_build_target_display_time_ns == 0,
        FrameTraceEvent::spec_now(kind, timestamp_ns).presentation_display_tick_sequence == 0,
        FrameTraceEvent::spec_now(kind, timestamp_ns).presentation_target_display_time_ns == 0,
        FrameTraceEvent::spec_now(kind, timestamp_ns).scene_build_tick_flags == 0,
        FrameTraceEvent::spec_now(kind, timestamp_ns).presentation_tick_flags == 0,
        FrameTraceEvent::spec_now(kind, timestamp_ns).coalesced_display_tick_count == 0,
        FrameTraceEvent::spec_now(kind, timestamp_ns).presentation_queue_depth == 0,
        FrameTraceEvent::spec_now(kind, timestamp_ns).next_drawable_wait_ns == 0,
        FrameTraceEvent::spec_now(kind, timestamp_ns).gpu_start_time_ns == 0,
        FrameTraceEvent::spec_now(kind, timestamp_ns).gpu_end_time_ns == 0,
        FrameTraceEvent::spec_now(kind, timestamp_ns).submission_skip_reason == 0,
        FrameTraceEvent::spec_now(kind, timestamp_ns).shadow_count == 0,
        FrameTraceEvent::spec_now(kind, timestamp_ns).quad_count == 0,
        FrameTraceEvent::spec_now(kind, timestamp_ns).path_count == 0,
        FrameTraceEvent::spec_now(kind, timestamp_ns).sprite_count == 0,
        FrameTraceEvent::spec_now(kind, timestamp_ns).surface_count == 0,
        FrameTraceEvent::spec_now(kind, timestamp_ns).shadow_expanded_area_device_px2 == 0,
        FrameTraceEvent::spec_now(kind, timestamp_ns).quad_area_device_px2 == 0,
        FrameTraceEvent::spec_now(kind, timestamp_ns).path_segment_count == 0,
        FrameTraceEvent::spec_now(kind, timestamp_ns).flags == 0,
{
}

/// Whether flags have one among them.
pub open spec fn marked(flags: u64, flag: u64) -> bool {
    flags & flag != 0
}

/// Whether a flag is one of those that events have.
pub open spec fn known(flag: u64) -> bool {
    ||| flag == FLAG_PHYSICAL_INPUT
    ||| flag == FLAG_SYNTHETIC_INPUT
    ||| flag == FLAG_MISSED_DISPLAY_TARGET
    ||| flag == FLAG_PRESENTATION_TIMESTAMP_INVALID
    ||| flag == FLAG_REUSED_SCENE
    ||| flag == FLAG_DISPLAY_TARGET_INVALID
    ||| flag == FLAG_GPU_TIMESTAMPS_INVALID
    ||| flag == FLAG_QUEUE_DEPTH_UNDERFLOW
    ||| flag == FLAG_DRAWABLE_ID_MISMATCH
    ||| flag == FLAG_PRESENTED_AFTER_DISPLAY_TARGET
    ||| flag == FLAG_INVALIDATION_ALREADY_DIRTY
    ||| flag == FLAG_INVALIDATION_DURING_DRAW
    ||| flag == FLAG_DISPLAY_CURRENT_INVALID
    ||| flag == FLAG_DISPLAY_REFRESH_INVALID
}

proof fn adding_a_flag(flags: u64, flag: u64, other: u64)
    ensures
        marked(flags | flag, other) <==> marked(flags, other) || marked(flag, other),
        !marked(0, other),
{
    assert((flags | flag) & other != 0 <==> flags & other != 0 || flag & other != 0)
        by (bit_vector);
    assert(0u64 & other == 0) by (bit_vector);
}

/// Adding a flag, where it applies, marks what the flag marks and leaves the rest.
pub proof fn flags_add_up(flag: u64)
    ensures
        forall|flags: u64, added: u64, applies: bool|
            #[trigger] marked(with_flag(flags, added, applies), flag) <==> marked(flags, flag) || (
            applies && marked(added, flag)),
        !marked(0, flag),
{
    assert forall|flags: u64, added: u64, applies: bool|
        #[trigger] marked(with_flag(flags, added, applies), flag) <==> marked(flags, flag) || (
        applies && marked(added, flag)) by {
        adding_a_flag(flags, added, flag);
    }
    adding_a_flag(0, 0, flag);
}

/// No two flags have anything in common.
pub proof fn flags_stand_for_one_thing_each(a: u64, b: u64)
    requires
        known(a),
        known(b),
    ensures
        marked(a, b) <==> a == b,
{
    assert({
        &&& 0x1u64 & 0x2u64 == 0
        &&& 0x1u64 & 0x4u64 == 0
        &&& 0x1u64 & 0x8u64 == 0
        &&& 0x1u64 & 0x10u64 == 0
        &&& 0x1u64 & 0x20u64 == 0
        &&& 0x1u64 & 0x40u64 == 0
        &&& 0x1u64 & 0x80u64 == 0
        &&& 0x1u64 & 0x100u64 == 0
        &&& 0x1u64 & 0x200u64 == 0
        &&& 0x1u64 & 0x400u64 == 0
        &&& 0x1u64 & 0x800u64 == 0
        &&& 0x1u64 & 0x1000u64 == 0
        &&& 0x1u64 & 0x2000u64 == 0
        &&& 0x2u64 & 0x4u64 == 0
        &&& 0x2u64 & 0x8u64 == 0
        &&& 0x2u64 & 0x10u64 == 0
        &&& 0x2u64 & 0x20u64 == 0
        &&& 0x2u64 & 0x40u64 == 0
        &&& 0x2u64 & 0x80u64 == 0
        &&& 0x2u64 & 0x100u64 == 0
        &&& 0x2u64 & 0x200u64 == 0
        &&& 0x2u64 & 0x400u64 == 0
        &&& 0x2u64 & 0x800u64 == 0
        &&& 0x2u64 & 0x1000u64 == 0
        &&& 0x2u64 & 0x2000u64 == 0
        &&& 0x4u64 & 0x8u64 == 0
        &&& 0x4u64 & 0x10u64 == 0
        &&& 0x4u64 & 0x20u64 == 0
        &&& 0x4u64 & 0x40u64 == 0
        &&& 0x4u64 & 0x80u64 == 0
        &&& 0x4u64 & 0x100u64 == 0
        &&& 0x4u64 & 0x200u64 == 0
        &&& 0x4u64 & 0x400u64 == 0
        &&& 0x4u64 & 0x800u64 == 0
        &&& 0x4u64 & 0x1000u64 == 0
        &&& 0x4u64 & 0x2000u64 == 0
        &&& 0x8u64 & 0x10u64 == 0
        &&& 0x8u64 & 0x20u64 == 0
        &&& 0x8u64 & 0x40u64 == 0
        &&& 0x8u64 & 0x80u64 == 0
        &&& 0x8u64 & 0x100u64 == 0
        &&& 0x8u64 & 0x200u64 == 0
        &&& 0x8u64 & 0x400u64 == 0
        &&& 0x8u64 & 0x800u64 == 0
        &&& 0x8u64 & 0x1000u64 == 0
        &&& 0x8u64 & 0x2000u64 == 0
        &&& 0x10u64 & 0x20u64 == 0
        &&& 0x10u64 & 0x40u64 == 0
        &&& 0x10u64 & 0x80u64 == 0
        &&& 0x10u64 & 0x100u64 == 0
        &&& 0x10u64 & 0x200u64 == 0
        &&& 0x10u64 & 0x400u64 == 0
        &&& 0x10u64 & 0x800u64 == 0
        &&& 0x10u64 & 0x1000u64 == 0
        &&& 0x10u64 & 0x2000u64 == 0
        &&& 0x20u64 & 0x40u64 == 0
        &&& 0x20u64 & 0x80u64 == 0
        &&& 0x20u64 & 0x100u64 == 0
        &&& 0x20u64 & 0x200u64 == 0
        &&& 0x20u64 & 0x400u64 == 0
        &&& 0x20u64 & 0x800u64 == 0
        &&& 0x20u64 & 0x1000u64 == 0
        &&& 0x20u64 & 0x2000u64 == 0
        &&& 0x40u64 & 0x80u64 == 0
        &&& 0x40u64 & 0x100u64 == 0
        &&& 0x40u64 & 0x200u64 == 0
        &&& 0x40u64 & 0x400u64 == 0
        &&& 0x40u64 & 0x800u64 == 0
        &&& 0x40u64 & 0x1000u64 == 0
        &&& 0x40u64 & 0x2000u64 == 0
        &&& 0x80u64 & 0x100u64 == 0
        &&& 0x80u64 & 0x200u64 == 0
        &&& 0x80u64 & 0x400u64 == 0
        &&& 0x80u64 & 0x800u64 == 0
        &&& 0x80u64 & 0x1000u64 == 0
        &&& 0x80u64 & 0x2000u64 == 0
        &&& 0x100u64 & 0x200u64 == 0
        &&& 0x100u64 & 0x400u64 == 0
        &&& 0x100u64 & 0x800u64 == 0
        &&& 0x100u64 & 0x1000u64 == 0
        &&& 0x100u64 & 0x2000u64 == 0
        &&& 0x200u64 & 0x400u64 == 0
        &&& 0x200u64 & 0x800u64 == 0
        &&& 0x200u64 & 0x1000u64 == 0
        &&& 0x200u64 & 0x2000u64 == 0
        &&& 0x400u64 & 0x800u64 == 0
        &&& 0x400u64 & 0x1000u64 == 0
        &&& 0x400u64 & 0x2000u64 == 0
        &&& 0x800u64 & 0x1000u64 == 0
        &&& 0x800u64 & 0x2000u64 == 0
        &&& 0x1000u64 & 0x2000u64 == 0
        &&& 0x1u64 & 0x1u64 != 0
        &&& 0x2u64 & 0x2u64 != 0
        &&& 0x4u64 & 0x4u64 != 0
        &&& 0x8u64 & 0x8u64 != 0
        &&& 0x10u64 & 0x10u64 != 0
        &&& 0x20u64 & 0x20u64 != 0
        &&& 0x40u64 & 0x40u64 != 0
        &&& 0x80u64 & 0x80u64 != 0
        &&& 0x100u64 & 0x100u64 != 0
        &&& 0x200u64 & 0x200u64 != 0
        &&& 0x400u64 & 0x400u64 != 0
        &&& 0x800u64 & 0x800u64 != 0
        &&& 0x1000u64 & 0x1000u64 != 0
        &&& 0x2000u64 & 0x2000u64 != 0
    }) by (bit_vector);
    assert(a & b == b & a) by (bit_vector);
}

/// Whether an event belongs to a frame and the display target that the frame is meant for.
pub open spec fn tells_of(
    event: FrameTraceEvent,
    frame: FrameIdentity,
    target: DisplayTarget,
) -> bool {
    &&& event.input_sequence_id == frame.input_sequence_id
    &&& event.logical_frame_id == frame.logical_frame_id
    &&& event.renderer_instance_id == frame.renderer_instance_id
    &&& event.renderer_frame_id == frame.renderer_frame_id
    &&& event.command_buffer_id == frame.command_buffer_id
    &&& event.presentation_target_display_time_ns == target.time_ns
    &&& event.presentation_display_tick_sequence == target.tick_sequence
}

/// Whether an event is blank but for what is told of a frame.
pub open spec fn tells_no_more(event: FrameTraceEvent) -> bool {
    event == FrameTraceEvent {
        input_sequence_id: event.input_sequence_id,
        logical_frame_id: event.logical_frame_id,
        renderer_instance_id: event.renderer_instance_id,
        renderer_frame_id: event.renderer_frame_id,
        drawable_id: event.drawable_id,
        command_buffer_id: event.command_buffer_id,
        presentation_target_display_time_ns: event.presentation_target_display_time_ns,
        presentation_display_tick_sequence: event.presentation_display_tick_sequence,
        presentation_queue_depth: event.presentation_queue_depth,
        callback_observed_ns: event.callback_observed_ns,
        flags: event.flags,
        ..FrameTraceEvent::spec_now(event.kind, event.timestamp_ns)
    }
}

/// An event of a frame tells which frame it is, with its drawable, its target and the
/// presentations in flight. It is marked where the scene was shown before, and where there
/// is no target, and by nothing else.
pub proof fn a_frame_event_tells_of_its_frame(
    kind: FrameTraceEventKind,
    timestamp_ns: u64,
    frame: FrameIdentity,
    target: DisplayTarget,
    queue_depth: u64,
    flag: u64,
)
    requires
        known(flag),
    ensures
        ({
            let event = frame_event(kind, timestamp_ns, frame, target, queue_depth);
            &&& event.kind == kind
            &&& event.timestamp_ns == timestamp_ns
            &&& event.callback_observed_ns == 0
            &&& tells_of(event, frame, target)
            &&& tells_no_more(event)
            &&& event.drawable_id == frame.drawable_id
            &&& event.presentation_queue_depth == queue_depth
            &&& marked(event.flags, flag) <==> {
                ||| flag == FLAG_REUSED_SCENE && frame.reused_scene
                ||| flag == FLAG_DISPLAY_TARGET_INVALID && target.time_ns == 0
            }
        }),
{
    flags_add_up(flag);
    flags_stand_for_one_thing_each(FLAG_REUSED_SCENE, flag);
    flags_stand_for_one_thing_each(FLAG_DISPLAY_TARGET_INVALID, flag);
}

/// The event of a submitted frame is marked besides where its target has passed.
pub proof fn a_late_submission_is_marked(
    timestamp_ns: u64,
    frame: FrameIdentity,
    target: DisplayTarget,
    queue_depth: u64,
    flag: u64,
)
    requires
        known(flag),
    ensures
        ({
            let plain = frame_event(
                FrameTraceEventKind::CommandBufferSubmitted,
                timestamp_ns,
                frame,
                target,
                queue_depth,
            ).flags;
            let flags = with_flag(
                plain,
                FLAG_MISSED_DISPLAY_TARGET,
                target.time_ns != 0 && timestamp_ns > target.time_ns,
            );
            marked(flags, flag) <==> marked(plain, flag) || (flag == FLAG_MISSED_DISPLAY_TARGET
                && target.time_ns != 0 && timestamp_ns > target.time_ns)
        }),
{
    flags_add_up(flag);
    flags_stand_for_one_thing_each(FLAG_MISSED_DISPLAY_TARGET, flag);
}

/// The event of a drawable that ended tells whether and when it was shown, which frame it
/// belongs to and which drawable it was, and how many presentations are left in flight. It is
/// marked where the drawable was not shown, where there is no target, where it was shown
/// more than a millisecond after the target, where none was in flight, where it is not the
/// one that was submitted, and where the scene was shown before; and by nothing else.
pub proof fn an_ended_drawable_is_told_of(
    presented_time_ns: u64,
    callback_observed_ns: u64,
    shown_drawable_id: u64,
    previous_queue_depth: u64,
    frame: FrameIdentity,
    target: DisplayTarget,
    flag: u64,
)
    requires
        known(flag),
    ensures
        ({
            let event = ended_event(
                presented_time_ns,
                callback_observed_ns,
                shown_drawable_id,
                previous_queue_depth,
                frame,
                target,
            );
            &&& presented_time_ns > 0 ==> event.kind == FrameTraceEventKind::DrawablePresented
                && event.timestamp_ns == presented_time_ns
            &&& presented_time_ns == 0 ==> event.kind == FrameTraceEventKind::DrawableDropped
                && event.timestamp_ns == callback_observed_ns
            &&& event.callback_observed_ns == callback_observed_ns
            &&& tells_of(event, frame, target)
            &&& tells_no_more(event)
            &&& event.drawable_id == shown_drawable_id
            &&& previous_queue_depth > 0 ==> event.presentation_queue_depth + 1
                == previous_queue_depth
            &&& previous_queue_depth == 0 ==> event.presentation_queue_depth == 0
            &&& event.presentation_queue_depth == one_less(previous_queue_depth)
            &&& marked(event.flags, flag) <==> {
                ||| flag == FLAG_PRESENTATION_TIMESTAMP_INVALID && presented_time_ns == 0
                ||| flag == FLAG_DISPLAY_TARGET_INVALID && target.time_ns == 0
                ||| flag == FLAG_PRESENTED_AFTER_DISPLAY_TARGET && target.time_ns != 0
                    && presented_time_ns > target.time_ns + 1_000_000
                ||| flag == FLAG_QUEUE_DEPTH_UNDERFLOW && previous_queue_depth == 0
                ||| flag == FLAG_DRAWABLE_ID_MISMATCH && shown_drawable_id != frame.drawable_id
                ||| flag == FLAG_REUSED_SCENE && frame.reused_scene
            }
        }),
{
    flags_add_up(flag);
    flags_stand_for_one_thing_each(FLAG_PRESENTATION_TIMESTAMP_INVALID, flag);
    flags_stand_for_one_thing_each(FLAG_DISPLAY_TARGET_INVALID, flag);
    flags_stand_for_one_thing_each(FLAG_PRESENTED_AFTER_DISPLAY_TARGET, flag);
    flags_stand_for_one_thing_each(FLAG_QUEUE_DEPTH_UNDERFLOW, flag);
    flags_stand_for_one_thing_each(FLAG_DRAWABLE_ID_MISMATCH, flag);
    flags_stand_for_one_thing_each(FLAG_REUSED_SCENE, flag);
}

/// The event of an input tells all that is known of the input, under its number.
pub proof fn an_input_event_tells_of_the_input(input: FrameTraceInput, number: u64)
    ensures
        ({
            let event = input_event(input, number);
            &&& event.kind == FrameTraceEventKind::InputReceived
            &&& event.timestamp_ns == input.received_time_ns
            &&& event.physical_input_time_ns == input.physical_time_ns
            &&& event.input_sequence_id == number
            &&& event.parent_input_sequence_id == input.parent_input_sequence_id
            &&& event.input_kind == input.kind.spec_code()
            &&& event.input_phase == input.phase.spec_code()
            &&& event.native_event_type == input.native_event_type
            &&& event.input_momentum_phase == input.momentum_phase
            &&& event.native_event_number == input.native_event_number
            &&& event.flags == input.flags
            &&& event == FrameTraceEvent {
                physical_input_time_ns: event.physical_input_time_ns,
                input_sequence_id: event.input_sequence_id,
                parent_input_sequence_id: event.parent_input_sequence_id,
                input_kind: event.input_kind,
                input_phase: event.input_phase,
                native_event_type: event.native_event_type,
                input_momentum_phase: event.input_momentum_phase,
                native_event_number: event.native_event_number,
                flags: event.flags,
                ..FrameTraceEvent::spec_now(event.kind, event.timestamp_ns)
            }
        }),
{
}

/// The event of the delivery of an input tells its number and when, and no more.
pub proof fn a_delivery_event_tells_of_the_input(number: u64, timestamp_ns: u64)
    ensures
        ({
            let event = delivery_event(number, timestamp_ns);
            &&& event.kind == FrameTraceEventKind::PlatformInputDelivered
            &&& event.timestamp_ns == timestamp_ns
            &&& event.input_sequence_id == number
            &&& event == FrameTraceEvent {
                input_sequence_id: event.input_sequence_id,
                ..FrameTraceEvent::spec_now(event.kind, event.timestamp_ns)
            }
        }),
{
}

/// Whether an event tells the host times and the video units of a tick as they were read.
pub open spec fn tells_of_tick(event: FrameTraceEvent, tick: FrameTraceDisplayTick) -> bool {
    &&& event.display_id == tick.display_id
    &&& event.display_current_host_time_raw == tick.current_host_time_raw
    &&& event.display_output_host_time_raw == tick.output_host_time_raw
    &&& event.display_video_refresh_period == tick.video_refresh_period
    &&& event.display_video_time_scale == tick.video_time_scale
    &&& event.display_rate_scalar_bits == tick.rate_scalar.bits
    &&& event.presentation_display_tick_sequence == tick.sequence
    &&& event.coalesced_display_tick_count == tick.coalesced_count
    &&& event.presentation_tick_flags == tick.flags
}

/// A time of a tick in nanoseconds: none where the tick marks it invalid.
pub open spec fn time_unless(
    tick: FrameTraceDisplayTick,
    invalid: u64,
    ticks: u64,
    timebase: MachTimebase,
) -> u64 {
    if marked(tick.flags, invalid) {
        0
    } else {
        spec_mach_ticks_to_ns(ticks, timebase)
    }
}

/// The event of a display tick happened when the callback ran and was observed when it was
/// delivered. It tells the tick as it was read, with its times in nanoseconds where valid.
pub proof fn a_tick_event_tells_of_the_tick(tick: FrameTraceDisplayTick, timebase: MachTimebase)
    ensures
        ({
            let event = tick_event(tick, timebase);
            &&& event.kind == FrameTraceEventKind::DisplayLinkDelivered
            &&& event.timestamp_ns == tick.worker_callback_time_ns
            &&& event.callback_observed_ns == tick.main_queue_delivery_time_ns
            &&& tells_of_tick(event, tick)
            &&& event.display_refresh_period_ns == tick.refresh_period_ns
            &&& event.display_current_time_ns == time_unless(
                tick,
                FLAG_DISPLAY_CURRENT_INVALID,
                tick.current_host_time_raw,
                timebase,
            )
            &&& event.presentation_target_display_time_ns == time_unless(
                tick,
                FLAG_DISPLAY_TARGET_INVALID,
                tick.output_host_time_raw,
                timebase,
            )
            &&& event.flags == tick.flags
            &&& event.input_sequence_id == 0 && event.logical_frame_id == 0
            &&& event.scene_build_display_tick_sequence == 0
            &&& event.scene_build_tick_flags == 0
        }),
{
}

/// What a callback publishes is what it was told: the current time, the output time with its
/// video units, its own time and its numbers. A time counts as valid where it is marked so,
/// a refresh period where it is marked so with its rate and all three numbers are above zero
/// and finite. What a callback was not told comes out as zero and not valid.
pub proof fn a_callback_publishes_what_it_was_told(
    callback_host_time: u64,
    current: Option<DisplayTimeStamp>,
    output: Option<DisplayTimeStamp>,
    sequence: u64,
    callback_count: u64,
)
    ensures
        ({
            let latest = published(callback_host_time, current, output, sequence, callback_count);
            &&& latest.callback_host_time == callback_host_time
            &&& latest.sequence == sequence
            &&& latest.callback_count == callback_count
            &&& current matches Some(time) ==> latest.current_host_time_raw == time.host_time
                && latest.current_valid == marked(time.flags, 0x2)
            &&& current is None ==> latest.current_host_time_raw == 0 && !latest.current_valid
            &&& output matches Some(time) ==> {
                &&& latest.output_host_time_raw == time.host_time
                &&& latest.video_refresh_period == time.video_refresh_period
                &&& latest.video_time_scale == time.video_time_scale
                &&& latest.rate_scalar == time.rate_scalar
                &&& latest.output_valid == marked(time.flags, 0x2)
                &&& latest.refresh_valid <==> {
                    &&& marked(time.flags, 0x8)
                    &&& marked(time.flags, 0x10)
                    &&& time.video_refresh_period > 0
                    &&& time.video_time_scale > 0
                    &&& time.rate_scalar.positive_finite()
                }
            }
            &&& output is None ==> {
                &&& latest.output_host_time_raw == 0
                &&& latest.video_refresh_period == 0
                &&& latest.video_time_scale == 0
                &&& latest.rate_scalar.bits == 0
                &&& !latest.output_valid
                &&& !latest.refresh_valid
            }
        }),
{
}

/// A delivered tick is that of the last callback: it tells what that has published, when it
/// ran, when it was delivered and how many callbacks there were since the last delivery. The
/// refresh period counts where it is valid.
pub proof fn a_delivery_tells_of_the_last_callback(
    display_id: u32,
    snapshot: DisplayLinkTraceSnapshot,
    last_delivered_callback_count: u64,
    main_queue_delivery_time_ns: u64,
    measured_refresh_ns: u64,
    timebase: MachTimebase,
)
    ensures
        ({
            let tick = delivered_tick(
                display_id,
                snapshot,
                last_delivered_callback_count,
                main_queue_delivery_time_ns,
                measured_refresh_ns,
                timebase,
            );
            &&& tick.display_id == display_id
            &&& tick.sequence == snapshot.sequence
            &&& tick.worker_callback_time_ns == spec_mach_ticks_to_ns(
                snapshot.callback_host_time,
                timebase,
            )
            &&& tick.current_host_time_raw == snapshot.current_host_time_raw
            &&& tick.output_host_time_raw == snapshot.output_host_time_raw
            &&& tick.video_refresh_period == snapshot.video_refresh_period
            &&& tick.video_time_scale == snapshot.video_time_scale
            &&& tick.rate_scalar == snapshot.rate_scalar
            &&& tick.main_queue_delivery_time_ns == main_queue_delivery_time_ns
            &&& snapshot.refresh_valid ==> tick.refresh_period_ns == measured_refresh_ns
            &&& !snapshot.refresh_valid ==> tick.refresh_period_ns == 0
            &&& snapshot.callback_count >= last_delivered_callback_count
                ==> last_delivered_callback_count + tick.coalesced_count
                == snapshot.callback_count
            &&& marked(tick.flags, FLAG_DISPLAY_CURRENT_INVALID) == !snapshot.current_valid
            &&& marked(tick.flags, FLAG_DISPLAY_TARGET_INVALID) == !snapshot.output_valid
            &&& marked(tick.flags, FLAG_DISPLAY_REFRESH_INVALID) == (tick.refresh_period_ns == 0)
        }),
{
    times_are_marked_independently(
        snapshot,
        if snapshot.refresh_valid {
            measured_refresh_ns
        } else {
            0
        },
    );
}

/// The flags of a tick; one that is not there has no valid current time, target or refresh
/// period.
pub open spec fn flags_of_tick(tick: Option<FrameTraceDisplayTick>, flag: u64) -> bool {
    match tick {
        Some(tick) => marked(tick.flags, flag),
        None => flag == FLAG_DISPLAY_CURRENT_INVALID || flag == FLAG_DISPLAY_TARGET_INVALID || flag
            == FLAG_DISPLAY_REFRESH_INVALID,
    }
}

/// An event of a scene tells which frames and which input it belongs to, what was drawn and
/// what its two ticks tell, and keeps what it told before. It is marked by all that it was
/// marked by, and by the flags of both ticks.
pub proof fn an_event_of_a_scene_tells_all(
    trace: SceneTrace,
    event: FrameTraceEvent,
    timebase: MachTimebase,
    flag: u64,
)
    requires
        known(flag),
    ensures
        ({
            let after = trace.populated(event, timebase);
            &&& after.kind == event.kind
            &&& after.timestamp_ns == event.timestamp_ns
            &&& after.event_sequence_id == event.event_sequence_id
            &&& after.renderer_frame_id == event.renderer_frame_id
            &&& after.drawable_id == event.drawable_id
            &&& after.command_buffer_id == event.command_buffer_id
            &&& after.logical_frame_id == trace.logical_frame_id
            &&& after.input_sequence_id == trace.input_sequence_id
            &&& after.gpui_window_frame_id == trace.gpui_window_frame_id
            &&& after.presentation_token == trace.presentation_token
            &&& after.shadow_count == trace.summary.shadow_count
            &&& after.quad_count == trace.summary.quad_count
            &&& after.path_count == trace.summary.path_count
            &&& after.sprite_count == trace.summary.sprite_count
            &&& after.surface_count == trace.summary.surface_count
            &&& after.shadow_expanded_area_device_px2
                == trace.summary.shadow_expanded_area_device_px2
            &&& after.quad_area_device_px2 == trace.summary.quad_area_device_px2
            &&& after.path_segment_count == trace.summary.path_segment_count
            &&& trace.scene_build_tick matches Some(tick) ==> {
                &&& after.scene_build_display_tick_sequence == tick.sequence
                &&& after.scene_build_tick_flags == tick.flags
                &&& after.scene_build_target_display_time_ns == time_unless(
                    tick,
                    FLAG_DISPLAY_TARGET_INVALID,
                    tick.output_host_time_raw,
                    timebase,
                )
            }
            &&& trace.presentation_tick matches Some(tick) ==> {
                &&& tells_of_tick(after, tick)
                &&& after.display_current_time_ns == time_unless(
                    tick,
                    FLAG_DISPLAY_CURRENT_INVALID,
                    tick.current_host_time_raw,
                    timebase,
                )
                &&& after.presentation_target_display_time_ns == time_unless(
                    tick,
                    FLAG_DISPLAY_TARGET_INVALID,
                    tick.output_host_time_raw,
                    timebase,
                )
                &&& after.display_refresh_period_ns == (if marked(
                    tick.flags,
                    FLAG_DISPLAY_REFRESH_INVALID,
                ) {
                    0
                } else {
                    tick.refresh_period_ns
                })
            }
            &&& marked(after.flags, flag) <==> {
                ||| marked(event.flags, flag)
                ||| flags_of_tick(trace.scene_build_tick, flag)
                ||| flags_of_tick(trace.presentation_tick, flag)
            }
            &&& trace.scene_build_tick is None ==> marked(after.scene_build_tick_flags, flag)
                == flags_of_tick(None, flag)
            &&& trace.presentation_tick is None ==> marked(after.presentation_tick_flags, flag)
                == flags_of_tick(None, flag)
        }),
{
    let build = match trace.scene_build_tick {
        Some(tick) => tick.flags,
        None => NO_TICK_FLAGS,
    };
    let presentation = match trace.presentation_tick {
        Some(tick) => tick.flags,
        None => NO_TICK_FLAGS,
    };
    adding_a_flag(event.flags, build, flag);
    adding_a_flag(event.flags | build, presentation, flag);
    crate::scene::missing_tick_is_invalid();
    adding_a_flag(FLAG_DISPLAY_CURRENT_INVALID, FLAG_DISPLAY_TARGET_INVALID, flag);
    adding_a_flag(
        FLAG_DISPLAY_CURRENT_INVALID | FLAG_DISPLAY_TARGET_INVALID,
        FLAG_DISPLAY_REFRESH_INVALID,
        flag,
    );
    flags_stand_for_one_thing_each(FLAG_DISPLAY_CURRENT_INVALID, flag);
    flags_stand_for_one_thing_each(FLAG_DISPLAY_TARGET_INVALID, flag);
    flags_stand_for_one_thing_each(FLAG_DISPLAY_REFRESH_INVALID, flag);
}

/// Holding back an attempt takes one from the holds that were asked for, where there is one
/// and the tick of the attempt is a tick of its own that was not counted last; it then is
/// the one counted last. Nothing else changes.
pub proof fn a_hold_is_counted_by_its_tick(trace: SceneTrace)
    ensures
        ({
            let after = trace.held();
            let counts = trace.diagnostic_hold_ticks > 0 && (trace.presentation_tick matches Some(
                tick,
            ) && tick.sequence != 0 && tick.coalesced_count == 1 && tick.sequence
                != trace.last_held_tick_sequence);
            &&& counts ==> after.diagnostic_hold_ticks + 1 == trace.diagnostic_hold_ticks
                && after.last_held_tick_sequence == trace.presentation_tick->0.sequence
            &&& !counts ==> after == trace
            &&& after == SceneTrace {
                diagnostic_hold_ticks: after.diagnostic_hold_ticks,
                last_held_tick_sequence: after.last_held_tick_sequence,
                ..trace
            }
        }),
{
}

} // verus!
