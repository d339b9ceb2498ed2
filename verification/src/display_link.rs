//! Display link callbacks on their way to the main queue.
//!
//! The callback publishes what it was told under a version: even while that can be
//! read, odd while it is being replaced. The main queue takes one delivery for all
//! callbacks since the last one.
use vstd::prelude::*;

use crate::float_bits::Float64;
use crate::trace_event::{
    mach_ticks_to_ns, spec_mach_ticks_to_ns, FrameTraceDisplayTick, MachTimebase,
    FLAG_DISPLAY_CURRENT_INVALID, FLAG_DISPLAY_REFRESH_INVALID, FLAG_DISPLAY_TARGET_INVALID,
};

verus! {

/// The host time of a timestamp is valid.
pub const TIME_STAMP_HOST_TIME_VALID: u64 = 0x2;

/// The refresh period of a timestamp is valid.
pub const TIME_STAMP_REFRESH_PERIOD_VALID: u64 = 0x8;

/// The rate scalar of a timestamp is valid.
pub const TIME_STAMP_RATE_SCALAR_VALID: u64 = 0x10;

/// What a display link callback is told of a time.
#[derive(Clone, Copy, Debug, PartialEq, Eq, Structural)]
pub struct DisplayTimeStamp {
    pub video_time_scale: i32,
    pub host_time: u64,
    pub rate_scalar: Float64,
    pub video_refresh_period: i64,
    pub flags: u64,
}

/// What a callback has published.
#[derive(Clone, Copy, Debug, PartialEq, Eq, Structural)]
pub struct DisplayLinkTraceSnapshot {
    pub callback_host_time: u64,
    pub current_host_time_raw: u64,
    pub output_host_time_raw: u64,
    pub video_refresh_period: i64,
    pub video_time_scale: i32,
    pub rate_scalar: Float64,
    pub current_valid: bool,
    pub output_valid: bool,
    pub refresh_valid: bool,
    pub sequence: u64,
    pub callback_count: u64,
}

/// What callbacks publish, under its version.
#[derive(Clone, Copy, Debug, PartialEq, Eq, Structural)]
pub struct DisplayLinkCallbackState {
    pub snapshot_version: u64,
    pub latest: DisplayLinkTraceSnapshot,
}

/// One more, as a counter of 64 bits counts.
pub open spec fn next_count(count: u64) -> u64 {
    if count == u64::MAX {
        0
    } else {
        (count + 1) as u64
    }
}

/// Whether the host time of a timestamp is valid.
pub open spec fn host_time_valid(time: Option<DisplayTimeStamp>) -> bool {
    time matches Some(time) && time.flags & TIME_STAMP_HOST_TIME_VALID != 0
}

/// Whether the refresh period of a timestamp is valid: it is marked so, the period
/// and the time scale are above zero, and the rate is a finite number above zero.
pub open spec fn refresh_period_valid(time: Option<DisplayTimeStamp>) -> bool {
    time matches Some(time) && time.flags & TIME_STAMP_REFRESH_PERIOD_VALID != 0 && time.flags
        & TIME_STAMP_RATE_SCALAR_VALID != 0 && time.video_refresh_period > 0
        && time.video_time_scale > 0 && time.rate_scalar.positive_finite()
}

/// What a callback publishes.
pub open spec fn published(
    callback_host_time: u64,
    current: Option<DisplayTimeStamp>,
    output: Option<DisplayTimeStamp>,
    sequence: u64,
    callback_count: u64,
) -> DisplayLinkTraceSnapshot {
    DisplayLinkTraceSnapshot {
        callback_host_time,
        current_host_time_raw: match current {
            Some(time) => time.host_time,
            None => 0,
        },
        output_host_time_raw: match output {
            Some(time) => time.host_time,
            None => 0,
        },
        video_refresh_period: match output {
            Some(time) => time.video_refresh_period,
            None => 0,
        },
        video_time_scale: match output {
            Some(time) => time.video_time_scale,
            None => 0,
        },
        rate_scalar: match output {
            Some(time) => time.rate_scalar,
            None => Float64 { bits: 0 },
        },
        current_valid: host_time_valid(current),
        output_valid: host_time_valid(output),
        refresh_valid: refresh_period_valid(output),
        sequence,
        callback_count,
    }
}

fn is_host_time_valid(time: Option<DisplayTimeStamp>) -> (valid: bool)
    ensures
        valid == host_time_valid(time),
{
    match time {
        Some(time) => time.flags & TIME_STAMP_HOST_TIME_VALID != 0,
        None => false,
    }
}

fn is_refresh_period_valid(time: Option<DisplayTimeStamp>) -> (valid: bool)
    ensures
        valid == refresh_period_valid(time),
{
    match time {
        Some(time) => time.flags & TIME_STAMP_REFRESH_PERIOD_VALID != 0 && time.flags
            & TIME_STAMP_RATE_SCALAR_VALID != 0 && time.video_refresh_period > 0
            && time.video_time_scale > 0 && time.rate_scalar.is_positive_finite(),
        None => false,
    }
}

impl DisplayLinkCallbackState {
    /// No callback has run.
    pub fn new() -> (state: DisplayLinkCallbackState)
        ensures
            state.snapshot_version == 0,
            state.latest == published(0, None, None, 0, 0),
    {
        DisplayLinkCallbackState {
            snapshot_version: 0,
            latest: DisplayLinkTraceSnapshot {
                callback_host_time: 0,
                current_host_time_raw: 0,
                output_host_time_raw: 0,
                video_refresh_period: 0,
                video_time_scale: 0,
                rate_scalar: Float64 { bits: 0 },
                current_valid: false,
                output_valid: false,
                refresh_valid: false,
                sequence: 0,
                callback_count: 0,
            },
        }
    }

    /// Publishes what a callback was told, and counts the callback.
    pub fn record_callback(
        &mut self,
        callback_host_time: u64,
        current: Option<DisplayTimeStamp>,
        output: Option<DisplayTimeStamp>,
        sequence: u64,
    )
        ensures
            final(self).snapshot_version == next_count(next_count(old(self).snapshot_version)),
            final(self).latest == published(
                callback_host_time,
                current,
                output,
                sequence,
                next_count(old(self).latest.callback_count),
            ),
    {
        self.snapshot_version = self.snapshot_version.wrapping_add(1);
        self.latest.callback_host_time = callback_host_time;
        self.latest.current_host_time_raw = match current {
            Some(time) => time.host_time,
            None => 0,
        };
        self.latest.output_host_time_raw = match output {
            Some(time) => time.host_time,
            None => 0,
        };
        self.latest.video_refresh_period = match output {
            Some(time) => time.video_refresh_period,
            None => 0,
        };
        self.latest.video_time_scale = match output {
            Some(time) => time.video_time_scale,
            None => 0,
        };
        self.latest.rate_scalar = match output {
            Some(time) => time.rate_scalar,
            None => Float64 { bits: 0 },
        };
        self.latest.current_valid = is_host_time_valid(current);
        self.latest.output_valid = is_host_time_valid(output);
        self.latest.refresh_valid = is_refresh_period_valid(output);
        self.latest.sequence = sequence;
        self.latest.callback_count = self.latest.callback_count.wrapping_add(1);
        self.snapshot_version = self.snapshot_version.wrapping_add(1);
    }
}

/// The flags of a delivery.
pub open spec fn delivery_flags(snapshot: DisplayLinkTraceSnapshot, refresh_period_ns: u64) -> u64 {
    let current: u64 = if !snapshot.current_valid {
        0 | FLAG_DISPLAY_CURRENT_INVALID
    } else {
        0
    };
    let target: u64 = if !snapshot.output_valid {
        current | FLAG_DISPLAY_TARGET_INVALID
    } else {
        current
    };
    if !snapshot.refresh_valid || refresh_period_ns == 0 {
        target | FLAG_DISPLAY_REFRESH_INVALID
    } else {
        target
    }
}

/// The tick that stands for the callbacks since the last delivery.
pub open spec fn delivered_tick(
    display_id: u32,
    snapshot: DisplayLinkTraceSnapshot,
    last_delivered_callback_count: u64,
    main_queue_delivery_time_ns: u64,
    measured_refresh_ns: u64,
    timebase: MachTimebase,
) -> FrameTraceDisplayTick {
    let refresh_period_ns: u64 = if snapshot.refresh_valid {
        measured_refresh_ns
    } else {
        0
    };
    FrameTraceDisplayTick {
        display_id,
        sequence: snapshot.sequence,
        worker_callback_time_ns: spec_mach_ticks_to_ns(snapshot.callback_host_time, timebase),
        current_host_time_raw: snapshot.current_host_time_raw,
        output_host_time_raw: snapshot.output_host_time_raw,
        video_refresh_period: snapshot.video_refresh_period,
        video_time_scale: snapshot.video_time_scale,
        rate_scalar: snapshot.rate_scalar,
        refresh_period_ns,
        main_queue_delivery_time_ns,
        coalesced_count: if snapshot.callback_count >= last_delivered_callback_count {
            (snapshot.callback_count - last_delivered_callback_count) as u64
        } else {
            0
        },
        flags: delivery_flags(snapshot, refresh_period_ns),
    }
}

/// One tick for all callbacks since the last delivery; none where there was no
/// callback. `measured_refresh_ns` is the refresh period in nanoseconds that comes of
/// the period, the time scale and the rate, and counts where those are valid.
pub fn frame_trace_delivery(
    display_id: u32,
    snapshot: DisplayLinkTraceSnapshot,
    last_delivered_callback_count: u64,
    main_queue_delivery_time_ns: u64,
    measured_refresh_ns: u64,
    timebase: MachTimebase,
) -> (tick: Option<FrameTraceDisplayTick>)
    ensures
        tick is Some <==> snapshot.callback_count != last_delivered_callback_count,
        tick is Some ==> tick->0 == delivered_tick(
            display_id,
            snapshot,
            last_delivered_callback_count,
            main_queue_delivery_time_ns,
            measured_refresh_ns,
            timebase,
        ),
{
    if snapshot.callback_count == last_delivered_callback_count {
        return None;
    }
    let refresh_period_ns: u64 = if snapshot.refresh_valid {
        measured_refresh_ns
    } else {
        0
    };
    let mut flags: u64 = 0;
    if !snapshot.current_valid {
        flags = flags | FLAG_DISPLAY_CURRENT_INVALID;
    }
    if !snapshot.output_valid {
        flags = flags | FLAG_DISPLAY_TARGET_INVALID;
    }
    if !snapshot.refresh_valid || refresh_period_ns == 0 {
        flags = flags | FLAG_DISPLAY_REFRESH_INVALID;
    }
    Some(
        FrameTraceDisplayTick {
            display_id,
            sequence: snapshot.sequence,
            worker_callback_time_ns: mach_ticks_to_ns(snapshot.callback_host_time, timebase),
            current_host_time_raw: snapshot.current_host_time_raw,
            output_host_time_raw: snapshot.output_host_time_raw,
            video_refresh_period: snapshot.video_refresh_period,
            video_time_scale: snapshot.video_time_scale,
            rate_scalar: snapshot.rate_scalar,
            refresh_period_ns,
            main_queue_delivery_time_ns,
            coalesced_count: snapshot.callback_count.saturating_sub(
                last_delivered_callback_count,
            ),
            flags,
        },
    )
}

/// A display link as the main queue sees it.
#[derive(Clone, Copy, Debug, PartialEq, Eq, Structural)]
pub struct DisplayLink {
    pub display_id: u32,
    pub last_delivered_callback_count: u64,
}

impl DisplayLink {
    /// Nothing was delivered.
    pub fn new(display_id: u32) -> (link: DisplayLink)
        ensures
            link == (DisplayLink { display_id, last_delivered_callback_count: 0 }),
    {
        DisplayLink { display_id, last_delivered_callback_count: 0 }
    }

    /// Takes a delivery from what was read between two readings of the version. There
    /// is none where a callback was publishing meanwhile, nor where there was no
    /// callback since the last delivery.
    pub fn take_trace_delivery(
        &mut self,
        version_before: u64,
        snapshot: DisplayLinkTraceSnapshot,
        version_after: u64,
        main_queue_delivery_time_ns: u64,
        measured_refresh_ns: u64,
        timebase: MachTimebase,
    ) -> (tick: Option<FrameTraceDisplayTick>)
        ensures
            tick is Some <==> version_before % 2 == 0 && version_before == version_after
                && snapshot.callback_count != old(self).last_delivered_callback_count,
            tick is Some ==> tick->0 == delivered_tick(
                old(self).display_id,
                snapshot,
                old(self).last_delivered_callback_count,
                main_queue_delivery_time_ns,
                measured_refresh_ns,
                timebase,
            ),
            *final(self) == (DisplayLink {
                last_delivered_callback_count: if tick is Some {
                    snapshot.callback_count
                } else {
                    old(self).last_delivered_callback_count
                },
                ..*old(self)
            }),
    {
        if version_before % 2 != 0 || version_before != version_after {
            return None;
        }
        let tick = frame_trace_delivery(
            self.display_id,
            snapshot,
            self.last_delivered_callback_count,
            main_queue_delivery_time_ns,
            measured_refresh_ns,
            timebase,
        );
        if tick.is_some() {
            self.last_delivered_callback_count = snapshot.callback_count;
        }
        tick
    }
}

/// Deliveries lose no callback and count none twice: two deliveries in a row stand
/// for as many callbacks as one that takes the place of both.
pub proof fn deliveries_count_every_callback(
    display_id: u32,
    first: DisplayLinkTraceSnapshot,
    second: DisplayLinkTraceSnapshot,
    last: u64,
    time_ns: u64,
    refresh_ns: u64,
    timebase: MachTimebase,
)
    requires
        last <= first.callback_count <= second.callback_count,
    ensures
        delivered_tick(
            display_id,
            first,
            last,
            time_ns,
            refresh_ns,
            timebase,
        ).coalesced_count + delivered_tick(
            display_id,
            second,
            first.callback_count,
            time_ns,
            refresh_ns,
            timebase,
        ).coalesced_count == delivered_tick(
            display_id,
            second,
            last,
            time_ns,
            refresh_ns,
            timebase,
        ).coalesced_count,
{
}

/// Each of the three times of a delivery is marked invalid on its own.
pub proof fn times_are_marked_independently(
    snapshot: DisplayLinkTraceSnapshot,
    refresh_period_ns: u64,
)
    ensures
        ({
            let flags = delivery_flags(snapshot, refresh_period_ns);
            &&& (flags & FLAG_DISPLAY_CURRENT_INVALID != 0) == !snapshot.current_valid
            &&& (flags & FLAG_DISPLAY_TARGET_INVALID != 0) == !snapshot.output_valid
            &&& (flags & FLAG_DISPLAY_REFRESH_INVALID != 0) == (!snapshot.refresh_valid
                || refresh_period_ns == 0)
        }),
{
    flags_stand_alone();
}

proof fn flags_stand_alone()
    ensures
        forall|flags: u64|
            #![trigger flags | FLAG_DISPLAY_CURRENT_INVALID]
            (flags | FLAG_DISPLAY_CURRENT_INVALID) & FLAG_DISPLAY_CURRENT_INVALID != 0
                && ((flags | FLAG_DISPLAY_CURRENT_INVALID) & FLAG_DISPLAY_TARGET_INVALID)
                == flags & FLAG_DISPLAY_TARGET_INVALID && ((flags | FLAG_DISPLAY_CURRENT_INVALID)
                & FLAG_DISPLAY_REFRESH_INVALID) == flags & FLAG_DISPLAY_REFRESH_INVALID,
        forall|flags: u64|
            #![trigger flags | FLAG_DISPLAY_TARGET_INVALID]
            (flags | FLAG_DISPLAY_TARGET_INVALID) & FLAG_DISPLAY_TARGET_INVALID != 0 && ((flags
                | FLAG_DISPLAY_TARGET_INVALID) & FLAG_DISPLAY_CURRENT_INVALID) == flags
                & FLAG_DISPLAY_CURRENT_INVALID && ((flags | FLAG_DISPLAY_TARGET_INVALID)
                & FLAG_DISPLAY_REFRESH_INVALID) == flags & FLAG_DISPLAY_REFRESH_INVALID,
        forall|flags: u64|
            #![trigger flags | FLAG_DISPLAY_REFRESH_INVALID]
            (flags | FLAG_DISPLAY_REFRESH_INVALID) & FLAG_DISPLAY_REFRESH_INVALID != 0 && ((flags
                | FLAG_DISPLAY_REFRESH_INVALID) & FLAG_DISPLAY_CURRENT_INVALID) == flags
                & FLAG_DISPLAY_CURRENT_INVALID && ((flags | FLAG_DISPLAY_REFRESH_INVALID)
                & FLAG_DISPLAY_TARGET_INVALID) == flags & FLAG_DISPLAY_TARGET_INVALID,
        0u64 & FLAG_DISPLAY_CURRENT_INVALID == 0,
        0u64 & FLAG_DISPLAY_TARGET_INVALID == 0,
        0u64 & FLAG_DISPLAY_REFRESH_INVALID == 0,
{
    assert forall|flags: u64|
        #![trigger flags | FLAG_DISPLAY_CURRENT_INVALID]
        (flags | FLAG_DISPLAY_CURRENT_INVALID) & FLAG_DISPLAY_CURRENT_INVALID != 0 && ((flags
            | FLAG_DISPLAY_CURRENT_INVALID) & FLAG_DISPLAY_TARGET_INVALID) == flags
            & FLAG_DISPLAY_TARGET_INVALID && ((flags | FLAG_DISPLAY_CURRENT_INVALID)
            & FLAG_DISPLAY_REFRESH_INVALID) == flags & FLAG_DISPLAY_REFRESH_INVALID by {
        assert((flags | 0x1000u64) & 0x1000u64 != 0 && (flags | 0x1000u64) & 0x20u64 == flags
            & 0x20u64 && (flags | 0x1000u64) & 0x2000u64 == flags & 0x2000u64) by (bit_vector);
    }
    assert forall|flags: u64|
        #![trigger flags | FLAG_DISPLAY_TARGET_INVALID]
        (flags | FLAG_DISPLAY_TARGET_INVALID) & FLAG_DISPLAY_TARGET_INVALID != 0 && ((flags
            | FLAG_DISPLAY_TARGET_INVALID) & FLAG_DISPLAY_CURRENT_INVALID) == flags
            & FLAG_DISPLAY_CURRENT_INVALID && ((flags | FLAG_DISPLAY_TARGET_INVALID)
            & FLAG_DISPLAY_REFRESH_INVALID) == flags & FLAG_DISPLAY_REFRESH_INVALID by {
        assert((flags | 0x20u64) & 0x20u64 != 0 && (flags | 0x20u64) & 0x1000u64 == flags
            & 0x1000u64 && (flags | 0x20u64) & 0x2000u64 == flags & 0x2000u64) by (bit_vector);
    }
    assert forall|flags: u64|
        #![trigger flags | FLAG_DISPLAY_REFRESH_INVALID]
        (flags | FLAG_DISPLAY_REFRESH_INVALID) & FLAG_DISPLAY_REFRESH_INVALID != 0 && ((flags
            | FLAG_DISPLAY_REFRESH_INVALID) & FLAG_DISPLAY_CURRENT_INVALID) == flags
            & FLAG_DISPLAY_CURRENT_INVALID && ((flags | FLAG_DISPLAY_REFRESH_INVALID)
            & FLAG_DISPLAY_TARGET_INVALID) == flags & FLAG_DISPLAY_TARGET_INVALID by {
        assert((flags | 0x2000u64) & 0x2000u64 != 0 && (flags | 0x2000u64) & 0x1000u64 == flags
            & 0x1000u64 && (flags | 0x2000u64) & 0x20u64 == flags & 0x20u64) by (bit_vector);
    }
    assert(0u64 & 0x1000u64 == 0 && 0u64 & 0x20u64 == 0 && 0u64 & 0x2000u64 == 0) by (bit_vector);
}

/// One atomic step of the callback: begin to publish, which takes an even version to
/// an odd one; store a part, while the version is odd; end, which takes it on to the
/// next even one. Steps of other code change nothing.
pub open spec fn callback_step(
    before: DisplayLinkCallbackState,
    after: DisplayLinkCallbackState,
) -> bool {
    ||| before == after
    ||| before.snapshot_version < u64::MAX && after == (DisplayLinkCallbackState {
        snapshot_version: (before.snapshot_version + 1) as u64,
        ..before
    })
    ||| before.snapshot_version % 2 == 1 && after.snapshot_version == before.snapshot_version
}

/// An execution: every state follows from the one before by a step.
pub open spec fn callback_execution(states: Seq<DisplayLinkCallbackState>) -> bool {
    forall|i: int|
        0 <= i < states.len() - 1 ==> callback_step(#[trigger] states[i], states[i + 1])
}

proof fn versions_only_rise(states: Seq<DisplayLinkCallbackState>, i: int, j: int)
    requires
        callback_execution(states),
        0 <= i <= j < states.len(),
    ensures
        states[i].snapshot_version <= states[j].snapshot_version,
    decreases j - i,
{
    if i < j {
        versions_only_rise(states, i, j - 1);
        assert(callback_step(states[j - 1], states[j - 1 + 1]));
    }
}

/// A delivery is never torn: where the main queue finds one even version before and
/// after it read, every part that it read in between, at whatever moment, is of what
/// was published under that version.
pub proof fn deliveries_never_tear(
    states: Seq<DisplayLinkCallbackState>,
    before: int,
    at: int,
    after: int,
)
    requires
        callback_execution(states),
        0 <= before <= at <= after < states.len(),
        states[before].snapshot_version % 2 == 0,
        states[before].snapshot_version == states[after].snapshot_version,
    ensures
        states[at] == states[before],
    decreases at - before,
{
    if before < at {
        deliveries_never_tear(states, before, at - 1, after);
        versions_only_rise(states, at, after);
        versions_only_rise(states, before, at);
        assert(callback_step(states[at - 1], states[at - 1 + 1]));
    }
}

} // verus!
