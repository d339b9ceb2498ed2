//! One bounded trace for the lifetime of a process.
//!
//! A trace is started once, at one of two levels, records the events that its
//! level keeps, and is stopped once, which yields the only snapshot. Beside it
//! stand the process-wide counters that give inputs, frames, renderers and
//! display ticks their identifiers, and the input that a thread is routing.
use vstd::prelude::*;

use crate::trace_buffer::{FrameTraceBuffer, TraceModel};
use crate::trace_event::{
    FrameTraceCaptureLevel, FrameTraceDisplayTick, FrameTraceEvent, FrameTraceEventKind,
    FrameTraceInput, FrameTraceSnapshot, MachTimebase,
};

verus! {

/// The trace of a process with its counters.
pub struct FrameTrace {
    pub trace: Option<FrameTraceBuffer>,
    pub active_run_id_hash: u64,
    pub detailed_capture_enabled: bool,
    pub last_input_sequence_id: u64,
    pub latest_input_sequence_id: u64,
    pub last_logical_frame_id: u64,
    pub last_gpui_window_frame_id: u64,
    pub last_renderer_instance_id: u64,
    pub last_display_tick_sequence_id: u64,
}

/// The contents of a `FrameTrace`.
pub struct FrameTraceModel {
    pub trace: Option<TraceModel>,
    pub active_run_id_hash: u64,
    pub detailed_capture_enabled: bool,
    pub last_input_sequence_id: u64,
    pub latest_input_sequence_id: u64,
    pub last_logical_frame_id: u64,
    pub last_gpui_window_frame_id: u64,
    pub last_renderer_instance_id: u64,
    pub last_display_tick_sequence_id: u64,
}

/// The event of an input with its identifier.
pub open spec fn input_event(input: FrameTraceInput, input_sequence_id: u64) -> FrameTraceEvent {
    FrameTraceEvent {
        input_sequence_id,
        parent_input_sequence_id: input.parent_input_sequence_id,
        physical_input_time_ns: input.physical_time_ns,
        input_kind: input.kind.spec_code(),
        input_phase: input.phase.spec_code(),
        native_event_type: input.native_event_type,
        input_momentum_phase: input.momentum_phase,
        native_event_number: input.native_event_number,
        flags: input.flags,
        ..FrameTraceEvent::spec_now(FrameTraceEventKind::InputReceived, input.received_time_ns)
    }
}

/// The event of the delivery of an input to the platform callback.
pub open spec fn delivery_event(input_sequence_id: u64, timestamp_ns: u64) -> FrameTraceEvent {
    FrameTraceEvent {
        input_sequence_id,
        ..FrameTraceEvent::spec_now(FrameTraceEventKind::PlatformInputDelivered, timestamp_ns)
    }
}

/// The event of the delivery of a display tick.
pub open spec fn tick_event(
    tick: FrameTraceDisplayTick,
    timebase: MachTimebase,
) -> FrameTraceEvent {
    FrameTraceEvent {
        callback_observed_ns: tick.main_queue_delivery_time_ns,
        display_id: tick.display_id as u64,
        display_current_time_ns: tick.spec_current_time_ns(timebase),
        display_refresh_period_ns: tick.refresh_period_ns,
        display_current_host_time_raw: tick.current_host_time_raw,
        display_output_host_time_raw: tick.output_host_time_raw,
        display_video_refresh_period: tick.video_refresh_period,
        display_video_time_scale: tick.video_time_scale as i64,
        display_rate_scalar_bits: tick.rate_scalar.bits,
        presentation_display_tick_sequence: tick.sequence,
        presentation_target_display_time_ns: tick.spec_target_time_ns(timebase),
        coalesced_display_tick_count: tick.coalesced_count,
        presentation_tick_flags: tick.flags,
        flags: tick.flags,
        ..FrameTraceEvent::spec_now(
            FrameTraceEventKind::DisplayLinkDelivered,
            tick.worker_callback_time_ns,
        )
    }
}

impl FrameTraceModel {
    /// A process without a trace, with all counters at zero.
    pub open spec fn fresh() -> FrameTraceModel {
        FrameTraceModel {
            trace: None,
            active_run_id_hash: 0,
            detailed_capture_enabled: false,
            last_input_sequence_id: 0,
            latest_input_sequence_id: 0,
            last_logical_frame_id: 0,
            last_gpui_window_frame_id: 0,
            last_renderer_instance_id: 0,
            last_display_tick_sequence_id: 0,
        }
    }

    /// The buffer, if there is one, is in order and nobody is writing to it. Only a
    /// trace that accepts events is detailed or has a run, and the latest input is
    /// one of those that were numbered.
    pub open spec fn wf(self) -> bool {
        &&& self.trace is Some ==> {
            &&& self.trace->0.wf()
            &&& self.trace->0.quiet()
            &&& self.trace->0.writer_count == 0
        }
        &&& self.detailed_capture_enabled ==> self.enabled()
        &&& !self.enabled() ==> self.active_run_id_hash == 0
        &&& self.latest_input_sequence_id <= self.last_input_sequence_id
    }

    /// A trace that accepts events can number another one.
    pub open spec fn has_room(self) -> bool {
        self.enabled() ==> self.trace->0.has_room()
    }

    /// A trace was started and not stopped.
    pub open spec fn enabled(self) -> bool {
        self.trace is Some && !self.trace->0.stopped
    }

    /// Whether events of a kind are kept at the level of the trace.
    pub open spec fn keeps(self, kind: FrameTraceEventKind) -> bool {
        kind.in_reference() || self.detailed_capture_enabled
    }

    /// After an event was put into the buffer, if there is one.
    pub open spec fn buffered(self, event: FrameTraceEvent) -> FrameTraceModel {
        match self.trace {
            Some(buffer) => FrameTraceModel { trace: Some(buffer.recorded(event)), ..self },
            None => self,
        }
    }

    /// After an event was recorded.
    pub open spec fn recorded(self, event: FrameTraceEvent) -> FrameTraceModel {
        if self.keeps(event.kind) {
            self.buffered(event)
        } else {
            self
        }
    }

    /// Whether a trace of some capacity can be started.
    pub open spec fn startable(self, capacity: usize) -> bool {
        capacity > 0 && self.trace is None
    }

    /// After a trace was started.
    pub open spec fn started(
        self,
        capacity: usize,
        level: FrameTraceCaptureLevel,
        run_id_hash: u64,
        timestamp_ns: u64,
    ) -> FrameTraceModel {
        FrameTraceModel {
            trace: Some(TraceModel::empty(capacity as int)),
            active_run_id_hash: run_id_hash,
            detailed_capture_enabled: level == FrameTraceCaptureLevel::Detailed,
            ..self
        }.recorded(FrameTraceEvent::spec_now(FrameTraceEventKind::TraceStarted, timestamp_ns))
    }

    /// After the trace was stopped.
    pub open spec fn stopped(self, timestamp_ns: u64) -> FrameTraceModel {
        match self.trace {
            Some(buffer) => FrameTraceModel {
                trace: Some(buffer.stopped_at(timestamp_ns)),
                active_run_id_hash: 0,
                detailed_capture_enabled: false,
                ..self
            },
            None => self,
        }
    }

    /// Whether an event for the buffer is published.
    pub open spec fn publishes(self) -> bool {
        self.trace is Some && self.trace->0.accepts()
    }

    /// After an input was recorded.
    pub open spec fn with_input(self, input: FrameTraceInput) -> FrameTraceModel {
        if !self.enabled() {
            self
        } else {
            let id = (self.last_input_sequence_id + 1) as u64;
            let after = FrameTraceModel {
                last_input_sequence_id: id,
                ..self
            }.buffered(input_event(input, id));
            if self.publishes() {
                FrameTraceModel { latest_input_sequence_id: id, ..after }
            } else {
                after
            }
        }
    }
}

impl FrameTrace {
    /// The contents.
    pub open spec fn view(&self) -> FrameTraceModel {
        FrameTraceModel {
            trace: match self.trace {
                Some(buffer) => Some(buffer@),
                None => None,
            },
            active_run_id_hash: self.active_run_id_hash,
            detailed_capture_enabled: self.detailed_capture_enabled,
            last_input_sequence_id: self.last_input_sequence_id,
            latest_input_sequence_id: self.latest_input_sequence_id,
            last_logical_frame_id: self.last_logical_frame_id,
            last_gpui_window_frame_id: self.last_gpui_window_frame_id,
            last_renderer_instance_id: self.last_renderer_instance_id,
            last_display_tick_sequence_id: self.last_display_tick_sequence_id,
        }
    }

    /// A process without a trace, with all counters at zero.
    pub fn new() -> (trace: FrameTrace)
        ensures
            trace@.wf(),
            trace@ == FrameTraceModel::fresh(),
    {
        FrameTrace {
            trace: None,
            active_run_id_hash: 0,
            detailed_capture_enabled: false,
            last_input_sequence_id: 0,
            latest_input_sequence_id: 0,
            last_logical_frame_id: 0,
            last_gpui_window_frame_id: 0,
            last_renderer_instance_id: 0,
            last_display_tick_sequence_id: 0,
        }
    }

    fn put(&mut self, event: FrameTraceEvent) -> (published: bool)
        requires
            old(self)@.wf(),
            old(self)@.has_room(),
        ensures
            published == old(self)@.publishes(),
            published == old(self)@.enabled(),
            final(self)@ == old(self)@.buffered(event),
            final(self)@.wf(),
    {
        match &mut self.trace {
            Some(buffer) => buffer.record(event),
            None => false,
        }
    }
}

/// The event of an input with its identifier.
pub fn new_input_event(input: FrameTraceInput, input_sequence_id: u64) -> (event: FrameTraceEvent)
    ensures
        event == input_event(input, input_sequence_id),
{
    let mut event = FrameTraceEvent::now(
        FrameTraceEventKind::InputReceived,
        input.received_time_ns,
    );
    event.input_sequence_id = input_sequence_id;
    event.parent_input_sequence_id = input.parent_input_sequence_id;
    event.physical_input_time_ns = input.physical_time_ns;
    event.input_kind = input.kind.code();
    event.input_phase = input.phase.code();
    event.native_event_type = input.native_event_type;
    event.input_momentum_phase = input.momentum_phase;
    event.native_event_number = input.native_event_number;
    event.flags = input.flags;
    event
}

/// The event of the delivery of an input to the platform callback.
pub fn new_delivery_event(input_sequence_id: u64, timestamp_ns: u64) -> (event: FrameTraceEvent)
    ensures
        event == delivery_event(input_sequence_id, timestamp_ns),
{
    let mut event = FrameTraceEvent::now(
        FrameTraceEventKind::PlatformInputDelivered,
        timestamp_ns,
    );
    event.input_sequence_id = input_sequence_id;
    event
}

/// The event of the delivery of a display tick.
pub fn new_tick_event(tick: FrameTraceDisplayTick, timebase: MachTimebase) -> (event:
    FrameTraceEvent)
    ensures
        event == tick_event(tick, timebase),
{
    let mut event = FrameTraceEvent::now(
        FrameTraceEventKind::DisplayLinkDelivered,
        tick.worker_callback_time_ns,
    );
    event.callback_observed_ns = tick.main_queue_delivery_time_ns;
    event.display_id = tick.display_id as u64;
    event.display_current_time_ns = tick.current_time_ns(timebase);
    event.display_refresh_period_ns = tick.refresh_period_ns;
    event.display_current_host_time_raw = tick.current_host_time_raw;
    event.display_output_host_time_raw = tick.output_host_time_raw;
    event.display_video_refresh_period = tick.video_refresh_period;
    event.display_video_time_scale = tick.video_time_scale as i64;
    event.display_rate_scalar_bits = tick.rate_scalar.bits;
    event.presentation_display_tick_sequence = tick.sequence;
    event.presentation_target_display_time_ns = tick.target_time_ns(timebase);
    event.coalesced_display_tick_count = tick.coalesced_count;
    event.presentation_tick_flags = tick.flags;
    event.flags = tick.flags;
    event
}

/// Whether events of a kind are kept, in a detailed trace or in another.
pub fn keeps_kind(kind: FrameTraceEventKind, detailed: bool) -> (kept: bool)
    ensures
        kept == (kind.in_reference() || detailed),
{
    kind.retained_in_reference() || detailed
}

/// Starts a detailed trace of the process. Fails without capacity, and where a
/// trace was started before.
pub fn start(
    trace: &mut FrameTrace,
    capacity: usize,
    run_id_hash: u64,
    timestamp_ns: u64,
) -> (started: bool)
    requires
        old(trace)@.wf(),
    ensures
        started == old(trace)@.startable(capacity),
        final(trace)@ == if started {
            old(trace)@.started(
                capacity,
                FrameTraceCaptureLevel::Detailed,
                run_id_hash,
                timestamp_ns,
            )
        } else {
            old(trace)@
        },
        final(trace)@.wf(),
{
    start_with_level(
        trace,
        capacity,
        FrameTraceCaptureLevel::Detailed,
        run_id_hash,
        timestamp_ns,
    )
}

/// Starts a trace of the process at a level. Fails without capacity, and where a
/// trace was started before.
pub fn start_with_level(
    trace: &mut FrameTrace,
    capacity: usize,
    level: FrameTraceCaptureLevel,
    run_id_hash: u64,
    timestamp_ns: u64,
) -> (started: bool)
    requires
        old(trace)@.wf(),
    ensures
        started == old(trace)@.startable(capacity),
        final(trace)@ == if started {
            old(trace)@.started(capacity, level, run_id_hash, timestamp_ns)
        } else {
            old(trace)@
        },
        final(trace)@.wf(),
{
    if capacity == 0 || trace.trace.is_some() {
        return false;
    }
    trace.trace = Some(FrameTraceBuffer::new(capacity));
    trace.active_run_id_hash = run_id_hash;
    trace.detailed_capture_enabled = level == FrameTraceCaptureLevel::Detailed;
    record(trace, FrameTraceEvent::now(FrameTraceEventKind::TraceStarted, timestamp_ns));
    true
}

/// Records an event that the level of the trace keeps.
pub fn record(trace: &mut FrameTrace, event: FrameTraceEvent)
    requires
        old(trace)@.wf(),
        old(trace)@.keeps(event.kind) ==> old(trace)@.has_room(),
    ensures
        final(trace)@ == old(trace)@.recorded(event),
        final(trace)@.wf(),
{
    if keeps_kind(event.kind, is_detailed_enabled(trace)) {
        trace.put(event);
    }
}

/// Stops the trace and takes its only snapshot. There is none before a trace was
/// started, and none a second time.
pub fn stop_and_snapshot(trace: &mut FrameTrace, timestamp_ns: u64) -> (snapshot: Option<
    FrameTraceSnapshot,
>)
    requires
        old(trace)@.wf(),
        old(trace)@.has_room(),
    ensures
        final(trace)@ == old(trace)@.stopped(timestamp_ns),
        final(trace)@.wf(),
        snapshot is Some <==> old(trace)@.enabled(),
        snapshot is Some ==> old(trace)@.trace->0.snapshot_is(
            timestamp_ns,
            old(trace)@.active_run_id_hash,
            snapshot->0,
        ),
{
    let run_id_hash: u64 = trace.active_run_id_hash;
    let snapshot = match &mut trace.trace {
        Some(buffer) => buffer.stop_and_snapshot(timestamp_ns, run_id_hash),
        None => {
            return None;
        },
    };
    trace.detailed_capture_enabled = false;
    trace.active_run_id_hash = 0;
    snapshot
}

/// The hash of the run that is traced.
pub fn active_run_id_hash(trace: &FrameTrace) -> (hash: u64)
    ensures
        hash == trace@.active_run_id_hash,
{
    trace.active_run_id_hash
}

/// Whether a trace is accepting events.
pub fn is_enabled(trace: &FrameTrace) -> (enabled: bool)
    ensures
        enabled == trace@.enabled(),
{
    match &trace.trace {
        Some(buffer) => !buffer.stopped,
        None => false,
    }
}

/// Whether events of every kind are kept.
pub fn is_detailed_enabled(trace: &FrameTrace) -> (enabled: bool)
    ensures
        enabled == trace@.detailed_capture_enabled,
{
    trace.detailed_capture_enabled
}

/// Records an input and returns its identifier, or zero where it was not recorded.
pub fn record_input(trace: &mut FrameTrace, input: FrameTraceInput) -> (input_sequence_id: u64)
    requires
        old(trace)@.wf(),
        old(trace)@.has_room(),
        old(trace)@.enabled() ==> old(trace)@.last_input_sequence_id < u64::MAX,
    ensures
        final(trace)@ == old(trace)@.with_input(input),
        final(trace)@.wf(),
        input_sequence_id == if old(trace)@.enabled() {
            (old(trace)@.last_input_sequence_id + 1) as u64
        } else {
            0
        },
        final(trace)@.latest_input_sequence_id == if input_sequence_id != 0 {
            input_sequence_id
        } else {
            old(trace)@.latest_input_sequence_id
        },
{
    if !is_enabled(trace) {
        return 0;
    }
    let input_sequence_id: u64 = trace.last_input_sequence_id + 1;
    trace.last_input_sequence_id = input_sequence_id;
    if trace.put(new_input_event(input, input_sequence_id)) {
        trace.latest_input_sequence_id = input_sequence_id;
        input_sequence_id
    } else {
        0
    }
}

/// The identifier of the input recorded last.
pub fn latest_input_sequence_id(trace: &FrameTrace) -> (input_sequence_id: u64)
    ensures
        input_sequence_id == trace@.latest_input_sequence_id,
{
    trace.latest_input_sequence_id
}

/// Records that an input was delivered to the platform callback, in a detailed
/// trace and for an input with an identifier.
pub fn record_platform_input_delivery(
    trace: &mut FrameTrace,
    input_sequence_id: u64,
    timestamp_ns: u64,
)
    requires
        old(trace)@.wf(),
        input_sequence_id != 0 && old(trace)@.detailed_capture_enabled ==> old(trace)@.has_room(),
    ensures
        final(trace)@ == if input_sequence_id != 0 && old(trace)@.detailed_capture_enabled {
            old(trace)@.recorded(delivery_event(input_sequence_id, timestamp_ns))
        } else {
            old(trace)@
        },
        final(trace)@.wf(),
{
    if input_sequence_id == 0 || !is_detailed_enabled(trace) {
        return;
    }
    record(trace, new_delivery_event(input_sequence_id, timestamp_ns));
}

/// Records the delivery of a display tick in a detailed trace.
pub fn record_display_link_delivery(
    trace: &mut FrameTrace,
    tick: FrameTraceDisplayTick,
    timebase: MachTimebase,
)
    requires
        old(trace)@.wf(),
        old(trace)@.detailed_capture_enabled ==> old(trace)@.has_room(),
    ensures
        final(trace)@ == if old(trace)@.detailed_capture_enabled {
            old(trace)@.recorded(tick_event(tick, timebase))
        } else {
            old(trace)@
        },
        final(trace)@.wf(),
{
    if !is_detailed_enabled(trace) {
        return;
    }
    record(trace, new_tick_event(tick, timebase));
}

/// A new identifier for a logical frame.
pub fn next_logical_frame_id(trace: &mut FrameTrace) -> (id: u64)
    requires
        old(trace)@.last_logical_frame_id < u64::MAX,
    ensures
        id == old(trace)@.last_logical_frame_id + 1,
        final(trace)@ == (FrameTraceModel { last_logical_frame_id: id, ..old(trace)@ }),
{
    trace.last_logical_frame_id = trace.last_logical_frame_id + 1;
    trace.last_logical_frame_id
}

/// A new identifier for a presentation attempt.
pub fn next_gpui_window_frame_id(trace: &mut FrameTrace) -> (id: u64)
    requires
        old(trace)@.last_gpui_window_frame_id < u64::MAX,
    ensures
        id == old(trace)@.last_gpui_window_frame_id + 1,
        final(trace)@ == (FrameTraceModel { last_gpui_window_frame_id: id, ..old(trace)@ }),
{
    trace.last_gpui_window_frame_id = trace.last_gpui_window_frame_id + 1;
    trace.last_gpui_window_frame_id
}

/// A new identifier for a renderer.
pub fn next_renderer_instance_id(trace: &mut FrameTrace) -> (id: u64)
    requires
        old(trace)@.last_renderer_instance_id < u64::MAX,
    ensures
        id == old(trace)@.last_renderer_instance_id + 1,
        final(trace)@ == (FrameTraceModel { last_renderer_instance_id: id, ..old(trace)@ }),
{
    trace.last_renderer_instance_id = trace.last_renderer_instance_id + 1;
    trace.last_renderer_instance_id
}

/// A new number for a display tick. It outlives the display link.
pub fn next_display_tick_sequence_id(trace: &mut FrameTrace) -> (id: u64)
    requires
        old(trace)@.last_display_tick_sequence_id < u64::MAX,
    ensures
        id == old(trace)@.last_display_tick_sequence_id + 1,
        final(trace)@ == (FrameTraceModel { last_display_tick_sequence_id: id, ..old(trace)@ }),
{
    trace.last_display_tick_sequence_id = trace.last_display_tick_sequence_id + 1;
    trace.last_display_tick_sequence_id
}

/// The input that a thread is routing, or zero.
#[derive(Clone, Copy, Debug, PartialEq, Eq, Structural)]
pub struct AppKitInputRoute {
    pub current_input_sequence_id: u64,
}

/// Remembers which input was routed before, until the scope is left.
#[must_use]
pub struct CurrentAppKitInputScope {
    pub previous_input_sequence_id: u64,
}

impl AppKitInputRoute {
    /// The route while an input is routed.
    pub open spec fn entering(self, input_sequence_id: u64) -> AppKitInputRoute {
        AppKitInputRoute { current_input_sequence_id: input_sequence_id }
    }

    /// The scope that remembers this route.
    pub open spec fn scope_for(self) -> CurrentAppKitInputScope {
        CurrentAppKitInputScope { previous_input_sequence_id: self.current_input_sequence_id }
    }

    /// The route after a scope was left.
    pub open spec fn leaving(self, scope: CurrentAppKitInputScope) -> AppKitInputRoute {
        AppKitInputRoute { current_input_sequence_id: scope.previous_input_sequence_id }
    }

    /// No input is being routed.
    pub fn new() -> (route: AppKitInputRoute)
        ensures
            route.current_input_sequence_id == 0,
    {
        AppKitInputRoute { current_input_sequence_id: 0 }
    }
}

impl CurrentAppKitInputScope {
    /// Leaves the scope and goes back to the input that was routed before it.
    pub fn leave(self, route: &mut AppKitInputRoute)
        ensures
            *final(route) == old(route).leaving(self),
    {
        route.current_input_sequence_id = self.previous_input_sequence_id;
    }
}

/// The input that the thread is routing.
pub fn current_appkit_input_sequence_id(route: &AppKitInputRoute) -> (input_sequence_id: u64)
    ensures
        input_sequence_id == route.current_input_sequence_id,
{
    route.current_input_sequence_id
}

/// Routes an input through the callbacks of a thread until the scope is left.
pub fn enter_current_appkit_input_sequence_id(
    route: &mut AppKitInputRoute,
    input_sequence_id: u64,
) -> (scope: CurrentAppKitInputScope)
    ensures
        *final(route) == old(route).entering(input_sequence_id),
        scope == old(route).scope_for(),
{
    let previous_input_sequence_id: u64 = route.current_input_sequence_id;
    route.current_input_sequence_id = input_sequence_id;
    CurrentAppKitInputScope { previous_input_sequence_id }
}

/// A process traces once: after a start, and whatever is recorded and stopped
/// then, no other trace can be started.
pub proof fn a_trace_starts_only_once(
    model: FrameTraceModel,
    capacity: usize,
    level: FrameTraceCaptureLevel,
    run_id_hash: u64,
    timestamp_ns: u64,
    event: FrameTraceEvent,
    again: usize,
)
    ensures
        !model.started(capacity, level, run_id_hash, timestamp_ns).startable(again),
        model.trace is Some ==> !model.recorded(event).startable(again),
        model.trace is Some ==> !model.stopped(timestamp_ns).startable(again),
{
}

/// After a stop nothing is recorded any more, the trace counts as switched off,
/// and there is no second snapshot to be had.
pub proof fn nothing_follows_a_stop(
    model: FrameTraceModel,
    timestamp_ns: u64,
    event: FrameTraceEvent,
    input: FrameTraceInput,
    later_ns: u64,
    again: usize,
)
    requires
        model.wf(),
    ensures
        ({
            let after = model.stopped(timestamp_ns);
            &&& !after.enabled()
            &&& !after.detailed_capture_enabled
            &&& after.active_run_id_hash == 0
            &&& after.recorded(event) == after
            &&& after.with_input(input) == after
            &&& after.stopped(later_ns) == after
            &&& model.trace is Some ==> !after.startable(again)
        }),
{
    let after = model.stopped(timestamp_ns);
    if model.trace is Some {
        assert(after.trace->0.stopped);
        assert(after.trace->0.recorded(event) == after.trace->0);
    }
}

/// A call that a process makes on its trace. Deliveries are events that are recorded.
pub enum TraceCall {
    /// `start` or `start_with_level`.
    Start {
        capacity: usize,
        level: FrameTraceCaptureLevel,
        run_id_hash: u64,
        timestamp_ns: u64,
    },
    /// `record`.
    Record(FrameTraceEvent),
    /// `record_input`.
    Input(FrameTraceInput),
    /// `stop_and_snapshot`.
    Stop(u64),
}

impl FrameTraceModel {
    /// After a call.
    pub open spec fn called(self, call: TraceCall) -> FrameTraceModel {
        match call {
            TraceCall::Start { capacity, level, run_id_hash, timestamp_ns } => {
                if self.startable(capacity) {
                    self.started(capacity, level, run_id_hash, timestamp_ns)
                } else {
                    self
                }
            },
            TraceCall::Record(event) => self.recorded(event),
            TraceCall::Input(input) => self.with_input(input),
            TraceCall::Stop(timestamp_ns) => self.stopped(timestamp_ns),
        }
    }

    /// After calls in sequence.
    pub open spec fn after_calls(self, calls: Seq<TraceCall>) -> FrameTraceModel
        decreases calls.len(),
    {
        if calls.len() == 0 {
            self
        } else {
            self.after_calls(calls.drop_last()).called(calls.last())
        }
    }
}

/// Whether the call at a place of a process's calls is a start that succeeds.
pub open spec fn starts_at(calls: Seq<TraceCall>, i: int) -> bool {
    calls[i] is Start && FrameTraceModel::fresh().after_calls(calls.take(i)).startable(
        calls[i]->capacity,
    )
}

/// Whether a start among a process's calls succeeds.
pub open spec fn has_started(calls: Seq<TraceCall>) -> bool {
    exists|i: int| 0 <= i < calls.len() && #[trigger] starts_at(calls, i)
}

/// Whether a start among a process's calls succeeds and no stop follows it.
pub open spec fn runs(calls: Seq<TraceCall>) -> bool {
    exists|i: int|
        0 <= i < calls.len() && #[trigger] starts_at(calls, i) && no_stop_after(calls, i)
}

/// Whether no call after one of a process's calls is a stop.
pub open spec fn no_stop_after(calls: Seq<TraceCall>, i: int) -> bool {
    forall|j: int| i < j < calls.len() ==> !(#[trigger] calls[j] is Stop)
}

/// Whatever calls a process makes, its trace accepts events exactly where a start has
/// succeeded and no stop has followed it. Where it does not, it is not detailed, it
/// has no run, an input gets no identifier, and nothing is recorded; and once a start
/// has succeeded, no other one does.
pub proof fn a_trace_accepts_events_from_start_to_stop(
    calls: Seq<TraceCall>,
    event: FrameTraceEvent,
    input: FrameTraceInput,
    again: usize,
)
    ensures
        ({
            let model = FrameTraceModel::fresh().after_calls(calls);
            &&& model.enabled() <==> runs(calls)
            &&& !runs(calls) ==> {
                &&& !model.detailed_capture_enabled
                &&& model.active_run_id_hash == 0
                &&& model.recorded(event) == model
                &&& model.with_input(input) == model
            }
            &&& has_started(calls) ==> !model.startable(again)
        }),
{
    calls_are_followed(calls);
    let model = FrameTraceModel::fresh().after_calls(calls);
    if !runs(calls) && model.trace is Some {
        assert(model.trace->0.recorded(event) == model.trace->0);
    }
}

proof fn a_call_is_followed(model: FrameTraceModel, call: TraceCall)
    requires
        model.trace is Some ==> model.trace->0.stopped == model.trace->0.snapshot_claimed,
        !model.enabled() ==> !model.detailed_capture_enabled && model.active_run_id_hash == 0,
    ensures
        ({
            let after = model.called(call);
            let starts = call is Start && model.startable(call->capacity);
            &&& after.trace is Some <==> model.trace is Some || starts
            &&& after.enabled() <==> starts || (model.enabled() && !(call is Stop))
            &&& after.trace is Some ==> after.trace->0.stopped == after.trace->0.snapshot_claimed
            &&& !after.enabled() ==> !after.detailed_capture_enabled && after.active_run_id_hash
                == 0
        }),
{
}

#[verifier::rlimit(30)]
proof fn calls_are_followed(calls: Seq<TraceCall>)
    ensures
        ({
            let model = FrameTraceModel::fresh().after_calls(calls);
            &&& model.trace is Some <==> has_started(calls)
            &&& model.enabled() <==> runs(calls)
            &&& model.trace is Some ==> model.trace->0.stopped == model.trace->0.snapshot_claimed
            &&& !model.enabled() ==> !model.detailed_capture_enabled && model.active_run_id_hash
                == 0
        }),
    decreases calls.len(),
{
    if calls.len() > 0 {
        let earlier = calls.drop_last();
        let before = FrameTraceModel::fresh().after_calls(earlier);
        let last = calls.len() - 1;
        calls_are_followed(earlier);
        a_call_is_followed(before, calls[last]);
        assert(calls.take(last) =~= earlier);
        assert(FrameTraceModel::fresh().after_calls(calls) == before.called(calls[last]));
        assert forall|i: int| 0 <= i < last implies starts_at(calls, i) == #[trigger] starts_at(
            earlier,
            i,
        ) by {
            assert(calls.take(i) =~= earlier.take(i));
        }
        if has_started(earlier) {
            let i = choose|i: int| 0 <= i < earlier.len() && #[trigger] starts_at(earlier, i);
            assert(starts_at(calls, i));
        }
        if has_started(calls) {
            let i = choose|i: int| 0 <= i < calls.len() && #[trigger] starts_at(calls, i);
            if i < last {
                assert(starts_at(earlier, i));
            }
        }
        if runs(earlier) {
            let i = choose|i: int|
                0 <= i < earlier.len() && #[trigger] starts_at(earlier, i) && no_stop_after(
                    earlier,
                    i,
                );
            assert(starts_at(calls, i));
            if !(calls[last] is Stop) {
                assert forall|j: int| i < j < calls.len() implies !(
                #[trigger] calls[j] is Stop) by {
                    if j < last {
                        assert(calls[j] == earlier[j]);
                    }
                }
                assert(no_stop_after(calls, i));
            }
        }
        if runs(calls) {
            let i = choose|i: int|
                0 <= i < calls.len() && #[trigger] starts_at(calls, i) && no_stop_after(calls, i);
            if i < last {
                assert(starts_at(earlier, i));
                assert(!(calls[last] is Stop));
                assert forall|j: int| i < j < earlier.len() implies !(
                #[trigger] earlier[j] is Stop) by {
                    assert(calls[j] == earlier[j]);
                }
                assert(no_stop_after(earlier, i));
            }
        }
        if starts_at(calls, last) {
            assert(no_stop_after(calls, last));
            assert(runs(calls));
            assert(has_started(calls));
        }
    }
}

/// While a trace accepts events an input gets an identifier above all that inputs got
/// before it, becomes the latest one, and is the newest event of the buffer.
/// Otherwise nothing changes, and the latest input stays.
pub proof fn inputs_are_numbered_upwards(model: FrameTraceModel, input: FrameTraceInput)
    requires
        model.wf(),
        model.has_room(),
        model.last_input_sequence_id < u64::MAX,
    ensures
        ({
            let after = model.with_input(input);
            let id = after.last_input_sequence_id;
            &&& !model.enabled() ==> after == model
            &&& model.enabled() ==> {
                let buffer = model.trace->0;
                let newest = after.trace->0.slots[buffer.next_slot()];
                &&& model.latest_input_sequence_id <= model.last_input_sequence_id < id
                &&& after.latest_input_sequence_id == id
                &&& newest.sequence == after.trace->0.next_event_sequence_id - 1
                &&& newest.event == Some(
                    FrameTraceEvent {
                        event_sequence_id: newest.sequence,
                        ..input_event(input, id)
                    },
                )
            }
        }),
{
    if model.enabled() {
        let buffer = model.trace->0;
        vstd::arithmetic::div_mod::lemma_mod_bound(
            buffer.next_event_sequence_id - 1,
            buffer.slots.len() as int,
        );
        assert(!buffer.slots[buffer.next_slot()].writing);
    }
}

/// Whether every event in the buffer belongs to the direct chain of input,
/// submission and presentation.
pub open spec fn holds_only_the_chain(model: FrameTraceModel) -> bool {
    model.trace is Some ==> forall|i: int|
        0 <= i < model.trace->0.slots.len() && (#[trigger] model.trace->0.slots[i]).event is Some
            ==> model.trace->0.slots[i].event->0.kind.in_reference()
}

/// A reference capture holds only the direct chain: it does so when it is
/// started, and recording keeps it so.
pub proof fn reference_capture_holds_only_the_chain(
    model: FrameTraceModel,
    event: FrameTraceEvent,
    input: FrameTraceInput,
    capacity: usize,
    run_id_hash: u64,
    timestamp_ns: u64,
)
    requires
        model.wf(),
    ensures
        capacity > 0 ==> holds_only_the_chain(
            model.started(capacity, FrameTraceCaptureLevel::Reference, run_id_hash, timestamp_ns),
        ),
        !model.detailed_capture_enabled && holds_only_the_chain(model) ==> {
            &&& holds_only_the_chain(model.recorded(event))
            &&& holds_only_the_chain(model.with_input(input))
            &&& holds_only_the_chain(model.stopped(timestamp_ns))
        },
{
}

/// Scopes nest: leaving the inner one goes back to the outer input, and leaving
/// the outer one to the input before both, whatever the inner one routed.
pub proof fn scopes_nest(route: AppKitInputRoute, outer: u64, inner: u64)
    ensures
        ({
            let in_outer = route.entering(outer);
            let in_inner = in_outer.entering(inner);
            &&& in_inner.leaving(in_outer.scope_for()) == in_outer
            &&& in_inner.leaving(in_outer.scope_for()).leaving(route.scope_for()) == route
        }),
{
}

} // verus!
