//! The vocabulary of a frame trace: events, inputs, display ticks and clocks.
use vstd::prelude::*;

use crate::float_bits::Float64;
use crate::stable_sort::Keyed;

verus! {

/// The input came from the system with a valid time.
pub const FLAG_PHYSICAL_INPUT: u64 = 0x1;

/// The input came from a driver inside the process.
pub const FLAG_SYNTHETIC_INPUT: u64 = 0x2;

/// A command buffer was submitted after its display target.
pub const FLAG_MISSED_DISPLAY_TARGET: u64 = 0x4;

/// The drawable was not shown, or its frame was dropped.
pub const FLAG_PRESENTATION_TIMESTAMP_INVALID: u64 = 0x8;

/// The frame shows a scene of an earlier logical frame.
pub const FLAG_REUSED_SCENE: u64 = 0x10;

/// The display tick has no valid target time.
pub const FLAG_DISPLAY_TARGET_INVALID: u64 = 0x20;

/// The device reported no valid execution interval.
pub const FLAG_GPU_TIMESTAMPS_INVALID: u64 = 0x40;

/// A presentation ended while none was counted in flight.
pub const FLAG_QUEUE_DEPTH_UNDERFLOW: u64 = 0x80;

/// The drawable shown is not the one submitted.
pub const FLAG_DRAWABLE_ID_MISMATCH: u64 = 0x100;

/// The drawable was shown more than a millisecond after its target.
pub const FLAG_PRESENTED_AFTER_DISPLAY_TARGET: u64 = 0x200;

/// The window was dirty before it was asked to become so.
pub const FLAG_INVALIDATION_ALREADY_DIRTY: u64 = 0x400;

/// The window was asked to become dirty while it was drawn.
pub const FLAG_INVALIDATION_DURING_DRAW: u64 = 0x800;

/// The display tick has no valid current time.
pub const FLAG_DISPLAY_CURRENT_INVALID: u64 = 0x1000;

/// The display tick has no valid refresh period.
pub const FLAG_DISPLAY_REFRESH_INVALID: u64 = 0x2000;

/// What a scene of a canvas was rendered from.
#[derive(Clone, Copy, Debug, PartialEq, Eq, Structural)]
pub struct PresentationToken {
    /// The hash of the run.
    pub run_id_hash: u64,
    /// The input that the render sampled.
    pub input_sequence: u64,
    /// The application snapshot that the render sampled.
    pub snapshot_generation: u64,
    /// The number of the render.
    pub canvas_render_generation: u64,
}

/// The ratio of nanoseconds to host ticks. A host without such a clock, and one
/// that does not tell its ratio, has a denominator of zero.
#[derive(Clone, Copy, Debug, PartialEq, Eq, Structural)]
pub struct MachTimebase {
    pub numer: u32,
    pub denom: u32,
}

/// A number of nanoseconds as far as 64 bits hold it.
pub open spec fn saturated(nanoseconds: int) -> u64 {
    if nanoseconds > u64::MAX {
        u64::MAX
    } else {
        nanoseconds as u64
    }
}

/// Host ticks in nanoseconds.
pub open spec fn spec_mach_ticks_to_ns(ticks: u64, timebase: MachTimebase) -> u64 {
    if timebase.denom == 0 {
        0
    } else {
        saturated((ticks * timebase.numer) / (timebase.denom as int))
    }
}

/// Host ticks in nanoseconds: rounded down, at most what 64 bits hold, and zero
/// without a ratio.
pub fn mach_ticks_to_ns(ticks: u64, timebase: MachTimebase) -> (nanoseconds: u64)
    ensures
        nanoseconds == spec_mach_ticks_to_ns(ticks, timebase),
{
    if timebase.denom == 0 {
        return 0;
    }
    proof {
        assert(0 <= ticks * timebase.numer <= u64::MAX * u32::MAX) by (nonlinear_arith)
            requires
                0 <= ticks <= u64::MAX,
                0 <= timebase.numer <= u32::MAX,
        ;
    }
    let scaled: u128 = (ticks as u128) * (timebase.numer as u128);
    let nanoseconds: u128 = scaled / (timebase.denom as u128);
    if nanoseconds > u64::MAX as u128 {
        u64::MAX
    } else {
        nanoseconds as u64
    }
}

/// Nanoseconds since the first reading of the process clock, as far as 64 bits
/// hold them.
pub fn monotonic_time_ns(elapsed_nanoseconds: u128) -> (nanoseconds: u64)
    ensures
        nanoseconds == saturated(elapsed_nanoseconds as int),
{
    if elapsed_nanoseconds > u64::MAX as u128 {
        u64::MAX
    } else {
        elapsed_nanoseconds as u64
    }
}

/// The identifier under which a drawable is traced. Zero stays free for "none".
pub fn encode_drawable_id(raw_drawable_id: u64) -> (drawable_id: u64)
    ensures
        drawable_id != 0,
        raw_drawable_id < u64::MAX ==> drawable_id == raw_drawable_id + 1,
        raw_drawable_id == u64::MAX ==> drawable_id == u64::MAX,
{
    raw_drawable_id.saturating_add(1)
}

/// One display link callback as it was delivered to the main queue.
#[derive(Clone, Copy, Debug, PartialEq, Eq, Structural)]
pub struct FrameTraceDisplayTick {
    /// The display.
    pub display_id: u32,
    /// The number of the callback in this process.
    pub sequence: u64,
    /// When the callback ran.
    pub worker_callback_time_ns: u64,
    /// The current host time in ticks.
    pub current_host_time_raw: u64,
    /// The output host time in ticks.
    pub output_host_time_raw: u64,
    /// The refresh period in video units.
    pub video_refresh_period: i64,
    /// Video units in a second.
    pub video_time_scale: i32,
    /// The rate scalar.
    pub rate_scalar: Float64,
    /// The refresh period in nanoseconds, where valid.
    pub refresh_period_ns: u64,
    /// When the main queue observed the callback.
    pub main_queue_delivery_time_ns: u64,
    /// The callbacks that this delivery stands for.
    pub coalesced_count: u64,
    /// The validity flags.
    pub flags: u64,
}

impl FrameTraceDisplayTick {
    /// The current host time in nanoseconds; zero where the tick marks it invalid.
    pub open spec fn spec_current_time_ns(self, timebase: MachTimebase) -> u64 {
        if self.flags & FLAG_DISPLAY_CURRENT_INVALID != 0 {
            0
        } else {
            spec_mach_ticks_to_ns(self.current_host_time_raw, timebase)
        }
    }

    /// The target time in nanoseconds; zero where the tick marks it invalid.
    pub open spec fn spec_target_time_ns(self, timebase: MachTimebase) -> u64 {
        if self.flags & FLAG_DISPLAY_TARGET_INVALID != 0 {
            0
        } else {
            spec_mach_ticks_to_ns(self.output_host_time_raw, timebase)
        }
    }

    /// The current host time in nanoseconds; zero where the tick marks it invalid.
    pub fn current_time_ns(self, timebase: MachTimebase) -> (nanoseconds: u64)
        ensures
            nanoseconds == self.spec_current_time_ns(timebase),
    {
        if self.flags & FLAG_DISPLAY_CURRENT_INVALID != 0 {
            return 0;
        }
        mach_ticks_to_ns(self.current_host_time_raw, timebase)
    }

    /// The target time in nanoseconds; zero where the tick marks it invalid.
    pub fn target_time_ns(self, timebase: MachTimebase) -> (nanoseconds: u64)
        ensures
            nanoseconds == self.spec_target_time_ns(timebase),
    {
        if self.flags & FLAG_DISPLAY_TARGET_INVALID != 0 {
            return 0;
        }
        mach_ticks_to_ns(self.output_host_time_raw, timebase)
    }
}

/// What drawing one scene costs.
#[derive(Clone, Copy, Debug, PartialEq, Eq, Structural)]
pub struct FrameTraceSceneSummary {
    pub shadow_count: u64,
    pub quad_count: u64,
    pub path_count: u64,
    pub sprite_count: u64,
    pub surface_count: u64,
    pub shadow_expanded_area_device_px2: u64,
    pub quad_area_device_px2: u64,
    pub path_segment_count: u64,
}

impl FrameTraceSceneSummary {
    /// The summary of a scene without primitives.
    pub open spec fn spec_empty() -> FrameTraceSceneSummary {
        FrameTraceSceneSummary {
            shadow_count: 0,
            quad_count: 0,
            path_count: 0,
            sprite_count: 0,
            surface_count: 0,
            shadow_expanded_area_device_px2: 0,
            quad_area_device_px2: 0,
            path_segment_count: 0,
        }
    }

    /// The summary of a scene without primitives.
    pub fn empty() -> (summary: FrameTraceSceneSummary)
        ensures
            summary == FrameTraceSceneSummary::spec_empty(),
    {
        FrameTraceSceneSummary {
            shadow_count: 0,
            quad_count: 0,
            path_count: 0,
            sprite_count: 0,
            surface_count: 0,
            shadow_expanded_area_device_px2: 0,
            quad_area_device_px2: 0,
            path_segment_count: 0,
        }
    }
}

/// Why a presentation attempt submitted nothing.
#[derive(Clone, Copy, Debug, PartialEq, Eq, Structural)]
pub enum FrameSubmissionSkipReason {
    /// There was no drawable.
    NextDrawableUnavailable,
    /// The scene does not fit into the largest instance buffer.
    InstanceBufferLimit,
    /// Encoding failed even with the largest instance buffer.
    EncodeRetryExhausted,
    /// The attempt was held back on purpose.
    DiagnosticHold,
}

impl FrameSubmissionSkipReason {
    /// The code under which the reason is traced.
    pub open spec fn spec_code(self) -> u64 {
        match self {
            FrameSubmissionSkipReason::NextDrawableUnavailable => 1,
            FrameSubmissionSkipReason::InstanceBufferLimit => 2,
            FrameSubmissionSkipReason::EncodeRetryExhausted => 3,
            FrameSubmissionSkipReason::DiagnosticHold => 4,
        }
    }

    /// The code under which the reason is traced.
    pub fn code(self) -> (code: u64)
        ensures
            code == self.spec_code(),
    {
        match self {
            FrameSubmissionSkipReason::NextDrawableUnavailable => 1,
            FrameSubmissionSkipReason::InstanceBufferLimit => 2,
            FrameSubmissionSkipReason::EncodeRetryExhausted => 3,
            FrameSubmissionSkipReason::DiagnosticHold => 4,
        }
    }
}

/// How much a trace keeps.
#[derive(Clone, Copy, Debug, PartialEq, Eq, Structural)]
pub enum FrameTraceCaptureLevel {
    /// Only the direct chain of input, submission and presentation.
    Reference,
    /// Every event.
    Detailed,
}

/// What an event tells.
#[derive(Clone, Copy, Debug, PartialEq, Eq, Structural)]
pub enum FrameTraceEventKind {
    /// The trace was switched on, outside any measured frame.
    TraceStarted,
    /// The measured part of the workload began.
    MeasurementWindowStarted,
    /// An input was received from the system or from a driver.
    InputReceived,
    /// An input reached the platform callback.
    PlatformInputDelivered,
    /// The canvas began to handle an input.
    CanvasInputStarted,
    /// The canvas finished handling an input.
    CanvasInputCompleted,
    /// The canvas asked for a render.
    CanvasRenderRequested,
    /// An entity was notified by the application.
    EntityNotified,
    /// A window, or a view of it, was asked to become dirty.
    WindowInvalidated,
    /// A display link callback was delivered to the main queue. The event time is
    /// that of the callback, and `callback_observed_ns` that of the delivery.
    DisplayLinkDelivered,
    /// A dirty window began to be rebuilt.
    LogicalFrameStarted,
    /// The canvas began to build its elements.
    CanvasRenderStarted,
    /// The canvas finished building its elements.
    CanvasRenderCompleted,
    /// Prepaint of the window began.
    WindowPrepaintStarted,
    /// Prepaint of the canvas began.
    CanvasPrepaintStarted,
    /// Prepaint of the canvas ended.
    CanvasPrepaintCompleted,
    /// Prepaint of the window ended.
    WindowPrepaintCompleted,
    /// Paint of the canvas ended.
    CanvasPaintCompleted,
    /// Paint of the window ended.
    WindowPaintCompleted,
    /// The rebuild of the window ended.
    LogicalFrameCompleted,
    /// Presentation was asked for, before the platform window was locked.
    PlatformDrawRequested,
    /// The renderer entered its draw with the platform window locked.
    PlatformDrawStarted,
    /// The renderer began to wait for a drawable.
    NextDrawableStarted,
    /// A presentation attempt ended without a submission.
    FrameSubmissionSkipped,
    /// The wait for a drawable ended.
    DrawableAcquired,
    /// The command buffer of the frame was created.
    CommandBufferCreated,
    /// The command buffer of the frame was submitted.
    CommandBufferSubmitted,
    /// The commit of the command buffer returned.
    CommandBufferCommitReturned,
    /// The device scheduled the command buffer.
    GpuScheduled,
    /// The device completed the command buffer.
    GpuCompleted,
    /// The drawable was shown.
    DrawablePresented,
    /// The drawable ended without being shown.
    DrawableDropped,
    /// The measured part of the workload ended.
    MeasurementWindowCompleted,
    /// Recording stopped.
    TraceStopped,
}

impl FrameTraceEventKind {
    /// Whether a reference capture keeps events of this kind: the start and the
    /// end of the trace, inputs, submissions with those that were skipped, and
    /// the fate of drawables.
    pub open spec fn in_reference(self) -> bool {
        ||| self == FrameTraceEventKind::TraceStarted
        ||| self == FrameTraceEventKind::TraceStopped
        ||| self == FrameTraceEventKind::InputReceived
        ||| self == FrameTraceEventKind::FrameSubmissionSkipped
        ||| self == FrameTraceEventKind::CommandBufferSubmitted
        ||| self == FrameTraceEventKind::DrawablePresented
        ||| self == FrameTraceEventKind::DrawableDropped
    }

    /// Whether a reference capture keeps events of this kind.
    pub fn retained_in_reference(self) -> (result: bool)
        ensures
            result == self.in_reference(),
    {
        matches!(
            self,
            FrameTraceEventKind::TraceStarted
            | FrameTraceEventKind::TraceStopped
            | FrameTraceEventKind::InputReceived
            | FrameTraceEventKind::FrameSubmissionSkipped
            | FrameTraceEventKind::CommandBufferSubmitted
            | FrameTraceEventKind::DrawablePresented
            | FrameTraceEventKind::DrawableDropped
        )
    }
}

/// The class of an input.
#[derive(Clone, Copy, Debug, PartialEq, Eq, Structural)]
pub enum FrameTraceInputKind {
    PointerDown,
    PointerMove,
    PointerUp,
    Scroll,
    Magnify,
    KeyDown,
    KeyUp,
    ModifiersChanged,
    Other,
}

impl FrameTraceInputKind {
    /// The code under which the class is traced.
    pub open spec fn spec_code(self) -> u64 {
        match self {
            FrameTraceInputKind::PointerDown => 1,
            FrameTraceInputKind::PointerMove => 2,
            FrameTraceInputKind::PointerUp => 3,
            FrameTraceInputKind::Scroll => 4,
            FrameTraceInputKind::Magnify => 5,
            FrameTraceInputKind::KeyDown => 6,
            FrameTraceInputKind::KeyUp => 7,
            FrameTraceInputKind::ModifiersChanged => 8,
            FrameTraceInputKind::Other => 255,
        }
    }

    /// The code under which the class is traced.
    pub fn code(self) -> (code: u64)
        ensures
            code == self.spec_code(),
    {
        match self {
            FrameTraceInputKind::PointerDown => 1,
            FrameTraceInputKind::PointerMove => 2,
            FrameTraceInputKind::PointerUp => 3,
            FrameTraceInputKind::Scroll => 4,
            FrameTraceInputKind::Magnify => 5,
            FrameTraceInputKind::KeyDown => 6,
            FrameTraceInputKind::KeyUp => 7,
            FrameTraceInputKind::ModifiersChanged => 8,
            FrameTraceInputKind::Other => 255,
        }
    }
}

/// The phase of a gesture.
#[derive(Clone, Copy, Debug, PartialEq, Eq, Structural)]
pub enum FrameTraceInputPhase {
    /// The input has no phase.
    NoPhase,
    Started,
    Moved,
    Ended,
}

impl FrameTraceInputPhase {
    /// The code under which the phase is traced.
    pub open spec fn spec_code(self) -> u64 {
        match self {
            FrameTraceInputPhase::NoPhase => 0,
            FrameTraceInputPhase::Started => 1,
            FrameTraceInputPhase::Moved => 2,
            FrameTraceInputPhase::Ended => 3,
        }
    }

    /// The code under which the phase is traced.
    pub fn code(self) -> (code: u64)
        ensures
            code == self.spec_code(),
    {
        match self {
            FrameTraceInputPhase::NoPhase => 0,
            FrameTraceInputPhase::Started => 1,
            FrameTraceInputPhase::Moved => 2,
            FrameTraceInputPhase::Ended => 3,
        }
    }
}

/// An event of fixed size.
#[derive(Clone, Copy, Debug)]
pub struct FrameTraceEvent {
    /// The place of the event among those that reserved one.
    pub event_sequence_id: u64,
    /// What the event tells.
    pub kind: FrameTraceEventKind,
    /// When it happened.
    pub timestamp_ns: u64,
    /// When a callback observed an event of an earlier time.
    pub callback_observed_ns: u64,
    /// The device time of the input, where known.
    pub physical_input_time_ns: u64,
    /// The input that the event belongs to, or zero.
    pub input_sequence_id: u64,
    /// The input that a synthesized input came from, or zero.
    pub parent_input_sequence_id: u64,
    /// The code of the input's kind, or zero.
    pub input_kind: u64,
    /// The code of the input's phase, or zero.
    pub input_phase: u64,
    /// The system's event type, or zero.
    pub native_event_type: u64,
    /// The system's momentum phase, or zero.
    pub input_momentum_phase: u64,
    /// The system's event number, or zero.
    pub native_event_number: u64,
    /// The application's reason for a render request, or zero.
    pub request_reason: u64,
    /// Render requests counted so far.
    pub request_count: u64,
    /// Render requests that one frame answers.
    pub coalesced_request_count: u64,
    /// Render requests dropped before the frame.
    pub dropped_request_count: u64,
    /// The logical frame, or zero.
    pub logical_frame_id: u64,
    /// The presentation attempt, or zero.
    pub gpui_window_frame_id: u64,
    /// The renderer, or zero.
    pub renderer_instance_id: u64,
    /// The renderer's frame, or zero.
    pub renderer_frame_id: u64,
    /// The drawable's identifier plus one, or zero.
    pub drawable_id: u64,
    /// The identity of the command buffer, or zero.
    pub command_buffer_id: u64,
    /// The display.
    pub display_id: u64,
    /// The current host time of the display tick, where valid.
    pub display_current_time_ns: u64,
    /// The refresh period, where valid.
    pub display_refresh_period_ns: u64,
    /// The current host time in ticks.
    pub display_current_host_time_raw: u64,
    /// The output host time in ticks.
    pub display_output_host_time_raw: u64,
    /// The refresh period in video units.
    pub display_video_refresh_period: i64,
    /// Video units in a second.
    pub display_video_time_scale: i64,
    /// The encoding of the rate scalar.
    pub display_rate_scalar_bits: u64,
    /// The tick that the scene was built for.
    pub scene_build_display_tick_sequence: u64,
    /// The target of the tick that the scene was built for.
    pub scene_build_target_display_time_ns: u64,
    /// The tick of the presentation attempt.
    pub presentation_display_tick_sequence: u64,
    /// The target of the tick of the presentation attempt.
    pub presentation_target_display_time_ns: u64,
    /// The validity flags of the tick that the scene was built for.
    pub scene_build_tick_flags: u64,
    /// The validity flags of the tick of the presentation attempt.
    pub presentation_tick_flags: u64,
    /// The callbacks that the presentation tick stands for.
    pub coalesced_display_tick_count: u64,
    /// The presentations in flight after the event.
    pub presentation_queue_depth: u64,
    /// The time spent waiting for a drawable.
    pub next_drawable_wait_ns: u64,
    /// When the device started, where known.
    pub gpu_start_time_ns: u64,
    /// When the device ended, where known.
    pub gpu_end_time_ns: u64,
    /// The token of the scene, where it has one.
    pub presentation_token: Option<PresentationToken>,
    /// The code of the reason why nothing was submitted, or zero.
    pub submission_skip_reason: u64,
    /// Shadows in the scene.
    pub shadow_count: u64,
    /// Quads in the scene.
    pub quad_count: u64,
    /// Paths in the scene.
    pub path_count: u64,
    /// Sprites of both sorts in the scene.
    pub sprite_count: u64,
    /// Platform surfaces in the scene.
    pub surface_count: u64,
    /// The area of all shadows with their blur.
    pub shadow_expanded_area_device_px2: u64,
    /// The clipped area of all quads.
    pub quad_area_device_px2: u64,
    /// Contour segments of all paths.
    pub path_segment_count: u64,
    /// The flags of the event.
    pub flags: u64,
}

impl FrameTraceEvent {
    /// An event at a time, with nothing else known of it.
    pub open spec fn spec_now(kind: FrameTraceEventKind, timestamp_ns: u64) -> FrameTraceEvent {
        FrameTraceEvent {
            event_sequence_id: 0,
            kind,
            timestamp_ns,
            callback_observed_ns: 0,
            physical_input_time_ns: 0,
            input_sequence_id: 0,
            parent_input_sequence_id: 0,
            input_kind: 0,
            input_phase: 0,
            native_event_type: 0,
            input_momentum_phase: 0,
            native_event_number: 0,
            request_reason: 0,
            request_count: 0,
            coalesced_request_count: 0,
            dropped_request_count: 0,
            logical_frame_id: 0,
            gpui_window_frame_id: 0,
            renderer_instance_id: 0,
            renderer_frame_id: 0,
            drawable_id: 0,
            command_buffer_id: 0,
            display_id: 0,
            display_current_time_ns: 0,
            display_refresh_period_ns: 0,
            display_current_host_time_raw: 0,
            display_output_host_time_raw: 0,
            display_video_refresh_period: 0,
            display_video_time_scale: 0,
            display_rate_scalar_bits: 0,
            scene_build_display_tick_sequence: 0,
            scene_build_target_display_time_ns: 0,
            presentation_display_tick_sequence: 0,
            presentation_target_display_time_ns: 0,
            scene_build_tick_flags: 0,
            presentation_tick_flags: 0,
            coalesced_display_tick_count: 0,
            presentation_queue_depth: 0,
            next_drawable_wait_ns: 0,
            gpu_start_time_ns: 0,
            gpu_end_time_ns: 0,
            presentation_token: None,
            submission_skip_reason: 0,
            shadow_count: 0,
            quad_count: 0,
            path_count: 0,
            sprite_count: 0,
            surface_count: 0,
            shadow_expanded_area_device_px2: 0,
            quad_area_device_px2: 0,
            path_segment_count: 0,
            flags: 0,
        }
    }

    /// An event at the time that was read from the clock, with nothing else known
    /// of it.
    pub fn now(kind: FrameTraceEventKind, timestamp_ns: u64) -> (event: FrameTraceEvent)
        ensures
            event == FrameTraceEvent::spec_now(kind, timestamp_ns),
    {
        FrameTraceEvent {
            event_sequence_id: 0,
            kind,
            timestamp_ns,
            callback_observed_ns: 0,
            physical_input_time_ns: 0,
            input_sequence_id: 0,
            parent_input_sequence_id: 0,
            input_kind: 0,
            input_phase: 0,
            native_event_type: 0,
            input_momentum_phase: 0,
            native_event_number: 0,
            request_reason: 0,
            request_count: 0,
            coalesced_request_count: 0,
            dropped_request_count: 0,
            logical_frame_id: 0,
            gpui_window_frame_id: 0,
            renderer_instance_id: 0,
            renderer_frame_id: 0,
            drawable_id: 0,
            command_buffer_id: 0,
            display_id: 0,
            display_current_time_ns: 0,
            display_refresh_period_ns: 0,
            display_current_host_time_raw: 0,
            display_output_host_time_raw: 0,
            display_video_refresh_period: 0,
            display_video_time_scale: 0,
            display_rate_scalar_bits: 0,
            scene_build_display_tick_sequence: 0,
            scene_build_target_display_time_ns: 0,
            presentation_display_tick_sequence: 0,
            presentation_target_display_time_ns: 0,
            scene_build_tick_flags: 0,
            presentation_tick_flags: 0,
            coalesced_display_tick_count: 0,
            presentation_queue_depth: 0,
            next_drawable_wait_ns: 0,
            gpu_start_time_ns: 0,
            gpu_end_time_ns: 0,
            presentation_token: None,
            submission_skip_reason: 0,
            shadow_count: 0,
            quad_count: 0,
            path_count: 0,
            sprite_count: 0,
            surface_count: 0,
            shadow_expanded_area_device_px2: 0,
            quad_area_device_px2: 0,
            path_segment_count: 0,
            flags: 0,
        }
    }
}

impl Keyed for FrameTraceEvent {
    open spec fn key(&self) -> int {
        self.event_sequence_id as int
    }

    fn sort_key(&self) -> (result: u64) {
        self.event_sequence_id
    }
}

/// An input, described before the system routes it on.
#[derive(Clone, Copy, Debug, PartialEq, Eq, Structural)]
pub struct FrameTraceInput {
    /// When the input was received.
    pub received_time_ns: u64,
    /// The device time, or zero for a synthetic input.
    pub physical_time_ns: u64,
    /// The class.
    pub kind: FrameTraceInputKind,
    /// The phase.
    pub phase: FrameTraceInputPhase,
    /// The system's event type, or zero.
    pub native_event_type: u64,
    /// The system's momentum phase.
    pub momentum_phase: u64,
    /// The system's event number, or zero.
    pub native_event_number: u64,
    /// The input that this one was synthesized from.
    pub parent_input_sequence_id: u64,
    /// Origin and validity.
    pub flags: u64,
}

/// A trace after recording has stopped.
#[derive(Debug)]
pub struct FrameTraceSnapshot {
    /// The hash of the run.
    pub run_id_hash: u64,
    /// The number of events that the trace can hold.
    pub capacity: usize,
    /// Events that were replaced by newer ones.
    pub overwritten_events: u64,
    /// Writes given up because a newer event had taken the slot.
    pub superseded_writes: u64,
    /// Writes given up because another writer held the slot.
    pub contended_writes: u64,
    /// The events that are left, by ascending sequence.
    pub events: Vec<FrameTraceEvent>,
}

} // verus!
