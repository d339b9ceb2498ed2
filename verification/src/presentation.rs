//! How a frame is presented, and what is traced and measured of it.
use vstd::prelude::*;

use crate::float_bits::Float64;
use crate::raster_cache::FramePresentationSample;
use crate::time::{TimePoint, TimeSpan};
use crate::trace_event::{
    encode_drawable_id, FrameTraceEvent, FrameTraceEventKind, FLAG_DISPLAY_TARGET_INVALID,
    FLAG_DRAWABLE_ID_MISMATCH, FLAG_GPU_TIMESTAMPS_INVALID, FLAG_MISSED_DISPLAY_TARGET,
    FLAG_PRESENTATION_TIMESTAMP_INVALID, FLAG_PRESENTED_AFTER_DISPLAY_TARGET,
    FLAG_QUEUE_DEPTH_UNDERFLOW, FLAG_REUSED_SCENE,
};

verus! {

/// When frames are presented.
#[derive(Clone, Copy, Debug, PartialEq, Eq, Structural)]
pub enum MetalPresentationMode {
    /// As soon as possible.
    Asap,
    /// Shortly before the target of the display link.
    DisplayLinkTargetEarly,
}

/// The mode that a setting names. Without a setting, and for one that is not
/// known, frames are presented as soon as possible.
pub fn parse_metal_presentation_mode(value: Option<&str>) -> (mode: MetalPresentationMode)
    ensures
        mode == if value is Some && value->0@ == "display-link-target-early"@ {
            MetalPresentationMode::DisplayLinkTargetEarly
        } else {
            MetalPresentationMode::Asap
        },
{
    match value {
        Some(text) => {
            let given: String = text.to_owned();
            let early: String = "display-link-target-early".to_owned();
            if given == early {
                MetalPresentationMode::DisplayLinkTargetEarly
            } else {
                MetalPresentationMode::Asap
            }
        },
        None => MetalPresentationMode::Asap,
    }
}

/// How a frame is handed to the display.
#[derive(Clone, Copy, Debug, PartialEq, Eq, Structural)]
pub enum PresentationPlan {
    /// After the command buffer was scheduled, in step with a transaction.
    WithTransaction,
    /// At a host time, if that is near enough, else as soon as possible.
    AtHostTime(u64),
    /// As soon as possible.
    Immediately,
}

/// How a frame is handed to the display: in step with a transaction where the layer
/// asks for it; else at the target of the display link where the mode asks for it
/// and there is a target.
pub fn presentation_plan(
    presents_with_transaction: bool,
    mode: MetalPresentationMode,
    target_host_time: Option<u64>,
) -> (plan: PresentationPlan)
    ensures
        plan == if presents_with_transaction {
            PresentationPlan::WithTransaction
        } else if mode == MetalPresentationMode::DisplayLinkTargetEarly && target_host_time is Some {
            PresentationPlan::AtHostTime(target_host_time->0)
        } else {
            PresentationPlan::Immediately
        },
{
    if presents_with_transaction {
        return PresentationPlan::WithTransaction;
    }
    if mode == MetalPresentationMode::DisplayLinkTargetEarly {
        if let Some(target) = target_host_time {
            return PresentationPlan::AtHostTime(target);
        }
    }
    PresentationPlan::Immediately
}

/// When a frame was shown, by the clock of the process: the delay of the report
/// before the report, but not before the submission.
pub open spec fn shown_at(
    submitted_at: TimePoint,
    observed_at: TimePoint,
    callback_delay: TimeSpan,
) -> TimePoint {
    if observed_at.nanoseconds - callback_delay.nanoseconds >= submitted_at.nanoseconds {
        TimePoint { nanoseconds: (observed_at.nanoseconds - callback_delay.nanoseconds) as u64 }
    } else {
        submitted_at
    }
}

/// The sample of a frame that was shown.
pub fn presented_frame_sample(
    frame_id: u64,
    drawable_id: u64,
    presented_time_seconds: Float64,
    submitted_at: TimePoint,
    observed_at: TimePoint,
    callback_delay: TimeSpan,
    gpu_duration: Option<TimeSpan>,
) -> (sample: FramePresentationSample)
    ensures
        sample == (FramePresentationSample {
            frame_id,
            drawable_id,
            presented_time_seconds,
            submitted_at,
            presented_at: shown_at(submitted_at, observed_at, callback_delay),
            observed_at,
            gpu_duration,
        }),
        sample.presented_at.nanoseconds >= submitted_at.nanoseconds,
{
    let presented_at = if observed_at.nanoseconds >= callback_delay.nanoseconds
        && observed_at.nanoseconds - callback_delay.nanoseconds >= submitted_at.nanoseconds {
        TimePoint { nanoseconds: observed_at.nanoseconds - callback_delay.nanoseconds }
    } else {
        submitted_at
    };
    FramePresentationSample {
        frame_id,
        drawable_id,
        presented_time_seconds,
        submitted_at,
        presented_at,
        observed_at,
        gpu_duration,
    }
}

/// Which frame of which renderer it is, and what it was drawn from.
#[derive(Clone, Copy, Debug, PartialEq, Eq, Structural)]
pub struct FrameIdentity {
    pub renderer_instance_id: u64,
    pub renderer_frame_id: u64,
    pub logical_frame_id: u64,
    pub input_sequence_id: u64,
    /// The drawable as it is traced.
    pub drawable_id: u64,
    pub command_buffer_id: u64,
    /// The logical frame was shown before.
    pub reused_scene: bool,
}

/// The display tick that a frame is meant for.
#[derive(Clone, Copy, Debug, PartialEq, Eq, Structural)]
pub struct DisplayTarget {
    pub time_ns: u64,
    pub tick_sequence: u64,
}

/// A drawable is late when it is shown more than this after its target.
pub const LATE_AFTER_NS: u64 = 1_000_000;

/// Flags with one more, where it applies.
pub open spec fn with_flag(flags: u64, flag: u64, applies: bool) -> u64 {
    if applies {
        flags | flag
    } else {
        flags
    }
}

fn add_flag(flags: u64, flag: u64, applies: bool) -> (result: u64)
    ensures
        result == with_flag(flags, flag, applies),
{
    if applies {
        flags | flag
    } else {
        flags
    }
}

/// Whether a scene was shown before: it belongs to a logical frame, and to the one
/// that was shown last.
pub fn reuses_scene(logical_frame_id: u64, last_logical_frame_id: u64) -> (reused: bool)
    ensures
        reused == (logical_frame_id != 0 && logical_frame_id == last_logical_frame_id),
{
    logical_frame_id != 0 && logical_frame_id == last_logical_frame_id
}

/// An event of a frame.
pub open spec fn frame_event(
    kind: FrameTraceEventKind,
    timestamp_ns: u64,
    frame: FrameIdentity,
    target: DisplayTarget,
    queue_depth: u64,
) -> FrameTraceEvent {
    FrameTraceEvent {
        input_sequence_id: frame.input_sequence_id,
        logical_frame_id: frame.logical_frame_id,
        renderer_instance_id: frame.renderer_instance_id,
        renderer_frame_id: frame.renderer_frame_id,
        drawable_id: frame.drawable_id,
        command_buffer_id: frame.command_buffer_id,
        presentation_target_display_time_ns: target.time_ns,
        presentation_display_tick_sequence: target.tick_sequence,
        presentation_queue_depth: queue_depth,
        flags: with_flag(
            with_flag(0, FLAG_REUSED_SCENE, frame.reused_scene),
            FLAG_DISPLAY_TARGET_INVALID,
            target.time_ns == 0,
        ),
        ..FrameTraceEvent::spec_now(kind, timestamp_ns)
    }
}

/// An event of a frame.
pub fn frame_trace_event(
    kind: FrameTraceEventKind,
    timestamp_ns: u64,
    frame: FrameIdentity,
    target: DisplayTarget,
    queue_depth: u64,
) -> (event: FrameTraceEvent)
    ensures
        event == frame_event(kind, timestamp_ns, frame, target, queue_depth),
{
    let mut event = FrameTraceEvent::now(kind, timestamp_ns);
    event.input_sequence_id = frame.input_sequence_id;
    event.logical_frame_id = frame.logical_frame_id;
    event.renderer_instance_id = frame.renderer_instance_id;
    event.renderer_frame_id = frame.renderer_frame_id;
    event.drawable_id = frame.drawable_id;
    event.command_buffer_id = frame.command_buffer_id;
    event.presentation_target_display_time_ns = target.time_ns;
    event.presentation_display_tick_sequence = target.tick_sequence;
    event.presentation_queue_depth = queue_depth;
    event.flags = add_flag(event.flags, FLAG_REUSED_SCENE, frame.reused_scene);
    event.flags = add_flag(event.flags, FLAG_DISPLAY_TARGET_INVALID, target.time_ns == 0);
    event
}

/// The event of a drawable that was waited for since a time.
pub fn drawable_acquired_event(
    timestamp_ns: u64,
    started_ns: u64,
    frame: FrameIdentity,
    target: DisplayTarget,
    queue_depth: u64,
) -> (event: FrameTraceEvent)
    ensures
        event == (FrameTraceEvent {
            next_drawable_wait_ns: if timestamp_ns >= started_ns {
                (timestamp_ns - started_ns) as u64
            } else {
                0
            },
            ..frame_event(
                FrameTraceEventKind::DrawableAcquired,
                timestamp_ns,
                frame,
                target,
                queue_depth,
            )
        }),
{
    let mut event = frame_trace_event(
        FrameTraceEventKind::DrawableAcquired,
        timestamp_ns,
        frame,
        target,
        queue_depth,
    );
    event.next_drawable_wait_ns = timestamp_ns.saturating_sub(started_ns);
    event
}

/// The event of a frame that is submitted; it is late where its target has passed.
pub fn submission_event(
    timestamp_ns: u64,
    frame: FrameIdentity,
    target: DisplayTarget,
    queue_depth: u64,
) -> (event: FrameTraceEvent)
    ensures
        ({
            let plain = frame_event(
                FrameTraceEventKind::CommandBufferSubmitted,
                timestamp_ns,
                frame,
                target,
                queue_depth,
            );
            event == (FrameTraceEvent {
                flags: with_flag(
                    plain.flags,
                    FLAG_MISSED_DISPLAY_TARGET,
                    target.time_ns != 0 && timestamp_ns > target.time_ns,
                ),
                ..plain
            })
        }),
{
    let mut event = frame_trace_event(
        FrameTraceEventKind::CommandBufferSubmitted,
        timestamp_ns,
        frame,
        target,
        queue_depth,
    );
    event.flags = add_flag(
        event.flags,
        FLAG_MISSED_DISPLAY_TARGET,
        target.time_ns != 0 && timestamp_ns > target.time_ns,
    );
    event
}

/// A count less one, but not below zero.
pub open spec fn one_less(count: u64) -> u64 {
    if count > 0 {
        (count - 1) as u64
    } else {
        0
    }
}

/// The event of a drawable that ended: shown at a time, or dropped where there is
/// none. It is flagged where it was dropped, has no target, was shown late, ended
/// while none was counted in flight, is another drawable than the one submitted, or
/// shows a scene once more.
pub open spec fn ended_event(
    presented_time_ns: u64,
    callback_observed_ns: u64,
    shown_drawable_id: u64,
    previous_queue_depth: u64,
    frame: FrameIdentity,
    target: DisplayTarget,
) -> FrameTraceEvent {
    let dropped = presented_time_ns == 0;
    let late = target.time_ns != 0 && presented_time_ns > target.time_ns + LATE_AFTER_NS;
    FrameTraceEvent {
        callback_observed_ns,
        input_sequence_id: frame.input_sequence_id,
        logical_frame_id: frame.logical_frame_id,
        renderer_instance_id: frame.renderer_instance_id,
        renderer_frame_id: frame.renderer_frame_id,
        drawable_id: shown_drawable_id,
        command_buffer_id: frame.command_buffer_id,
        presentation_target_display_time_ns: target.time_ns,
        presentation_display_tick_sequence: target.tick_sequence,
        presentation_queue_depth: one_less(previous_queue_depth),
        flags: with_flag(
            with_flag(
                with_flag(
                    with_flag(
                        with_flag(
                            with_flag(0, FLAG_PRESENTATION_TIMESTAMP_INVALID, dropped),
                            FLAG_DISPLAY_TARGET_INVALID,
                            target.time_ns == 0,
                        ),
                        FLAG_PRESENTED_AFTER_DISPLAY_TARGET,
                        late,
                    ),
                    FLAG_QUEUE_DEPTH_UNDERFLOW,
                    previous_queue_depth == 0,
                ),
                FLAG_DRAWABLE_ID_MISMATCH,
                shown_drawable_id != frame.drawable_id,
            ),
            FLAG_REUSED_SCENE,
            frame.reused_scene,
        ),
        ..FrameTraceEvent::spec_now(
            if dropped {
                FrameTraceEventKind::DrawableDropped
            } else {
                FrameTraceEventKind::DrawablePresented
            },
            if dropped {
                callback_observed_ns
            } else {
                presented_time_ns
            },
        )
    }
}

/// The event of a drawable that ended, with the presentations that are then still
/// in flight.
pub fn presented_event(
    presented_time_ns: u64,
    callback_observed_ns: u64,
    raw_drawable_id: u64,
    previous_queue_depth: u64,
    frame: FrameIdentity,
    target: DisplayTarget,
) -> (result: (FrameTraceEvent, u64))
    ensures
        result.1 == one_less(previous_queue_depth),
        result.0 == ended_event(
            presented_time_ns,
            callback_observed_ns,
            if raw_drawable_id == u64::MAX {
                u64::MAX
            } else {
                (raw_drawable_id + 1) as u64
            },
            previous_queue_depth,
            frame,
            target,
        ),
{
    let dropped: bool = presented_time_ns == 0;
    let kind = if dropped {
        FrameTraceEventKind::DrawableDropped
    } else {
        FrameTraceEventKind::DrawablePresented
    };
    let timestamp_ns: u64 = if dropped {
        callback_observed_ns
    } else {
        presented_time_ns
    };
    let mut event = FrameTraceEvent::now(kind, timestamp_ns);
    event.callback_observed_ns = callback_observed_ns;
    event.input_sequence_id = frame.input_sequence_id;
    event.logical_frame_id = frame.logical_frame_id;
    event.renderer_instance_id = frame.renderer_instance_id;
    event.renderer_frame_id = frame.renderer_frame_id;
    event.drawable_id = encode_drawable_id(raw_drawable_id);
    event.command_buffer_id = frame.command_buffer_id;
    event.presentation_target_display_time_ns = target.time_ns;
    event.presentation_display_tick_sequence = target.tick_sequence;
    let queue_depth: u64 = previous_queue_depth.saturating_sub(1);
    event.presentation_queue_depth = queue_depth;
    event.flags = add_flag(event.flags, FLAG_PRESENTATION_TIMESTAMP_INVALID, dropped);
    event.flags = add_flag(event.flags, FLAG_DISPLAY_TARGET_INVALID, target.time_ns == 0);
    let late: bool = target.time_ns != 0 && presented_time_ns > target.time_ns.saturating_add(
        LATE_AFTER_NS,
    );
    event.flags = add_flag(event.flags, FLAG_PRESENTED_AFTER_DISPLAY_TARGET, late);
    event.flags = add_flag(event.flags, FLAG_QUEUE_DEPTH_UNDERFLOW, previous_queue_depth == 0);
    event.flags = add_flag(
        event.flags,
        FLAG_DRAWABLE_ID_MISMATCH,
        event.drawable_id != frame.drawable_id,
    );
    event.flags = add_flag(event.flags, FLAG_REUSED_SCENE, frame.reused_scene);
    (event, queue_depth)
}

/// The event of a command buffer that the device has scheduled.
pub fn gpu_scheduled_event(timestamp_ns: u64, command_buffer_id: u64, queue_depth: u64) -> (event:
    FrameTraceEvent)
    ensures
        event == (FrameTraceEvent {
            command_buffer_id,
            presentation_queue_depth: queue_depth,
            ..FrameTraceEvent::spec_now(FrameTraceEventKind::GpuScheduled, timestamp_ns)
        }),
{
    let mut event = FrameTraceEvent::now(FrameTraceEventKind::GpuScheduled, timestamp_ns);
    event.command_buffer_id = command_buffer_id;
    event.presentation_queue_depth = queue_depth;
    event
}

/// The event of a command buffer that the device has completed. The times of the
/// device are invalid where one is missing or they are out of order.
pub fn gpu_completed_event(
    callback_observed_ns: u64,
    gpu_start_time_ns: u64,
    gpu_end_time_ns: u64,
    command_buffer_id: u64,
    queue_depth: u64,
) -> (event: FrameTraceEvent)
    ensures
        event == (FrameTraceEvent {
            callback_observed_ns,
            command_buffer_id,
            presentation_queue_depth: queue_depth,
            gpu_start_time_ns,
            gpu_end_time_ns,
            flags: with_flag(
                0,
                FLAG_GPU_TIMESTAMPS_INVALID,
                gpu_start_time_ns == 0 || gpu_end_time_ns == 0 || gpu_end_time_ns
                    < gpu_start_time_ns,
            ),
            ..FrameTraceEvent::spec_now(
                FrameTraceEventKind::GpuCompleted,
                if gpu_end_time_ns == 0 {
                    callback_observed_ns
                } else {
                    gpu_end_time_ns
                },
            )
        }),
{
    let timestamp_ns: u64 = if gpu_end_time_ns == 0 {
        callback_observed_ns
    } else {
        gpu_end_time_ns
    };
    let mut event = FrameTraceEvent::now(FrameTraceEventKind::GpuCompleted, timestamp_ns);
    event.callback_observed_ns = callback_observed_ns;
    event.command_buffer_id = command_buffer_id;
    event.presentation_queue_depth = queue_depth;
    event.gpu_start_time_ns = gpu_start_time_ns;
    event.gpu_end_time_ns = gpu_end_time_ns;
    event.flags = add_flag(
        event.flags,
        FLAG_GPU_TIMESTAMPS_INVALID,
        gpu_start_time_ns == 0 || gpu_end_time_ns == 0 || gpu_end_time_ns < gpu_start_time_ns,
    );
    event
}

} // verus!
