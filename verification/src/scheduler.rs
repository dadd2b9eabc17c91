use vstd::prelude::*;

verus! {

/// Frame interval when no frame rate is requested: 20 frames per second.
pub const DEFAULT_FRAME_INTERVAL_NS: u128 = 50_000_000;

/// The interval between frames: the requested one (20 frames per second when
/// none is requested), but never shorter than the device allows.
pub open spec fn frame_interval(requested_ns: Option<u128>, min_update_interval_us: u64) -> int {
    vstd::math::max(
        match requested_ns {
            Some(r) => r as int,
            None => DEFAULT_FRAME_INTERVAL_NS as int,
        },
        min_update_interval_us as int * 1000,
    )
}

/// The interval between frames, in nanoseconds.
pub fn frame_interval_ns(requested_ns: Option<u128>, min_update_interval_us: u64) -> (interval: u128)
    ensures
        interval == frame_interval(requested_ns, min_update_interval_us),
        interval >= min_update_interval_us as int * 1000,
{
    let requested = match requested_ns {
        Some(r) => r,
        None => DEFAULT_FRAME_INTERVAL_NS,
    };
    let minimum: u128 = min_update_interval_us as u128 * 1000;
    if requested >= minimum {
        requested
    } else {
        minimum
    }
}

/// When the next frame is due and when an effect run ends; times are
/// nanoseconds since the run started.
pub struct EffectClock {
    interval_ns: u128,
    stop_after_ns: Option<u128>,
    next_frame_ns: u128,
    frames_sent: u64,
}

impl EffectClock {
    /// The interval between frames.
    pub closed spec fn interval(&self) -> u128 {
        self.interval_ns
    }

    /// How long the run lasts, if it ends by itself.
    pub closed spec fn stop_after(&self) -> Option<u128> {
        self.stop_after_ns
    }

    /// When the next frame is due.
    pub closed spec fn next_frame(&self) -> u128 {
        self.next_frame_ns
    }

    /// Frames sent so far.
    pub closed spec fn sent(&self) -> u64 {
        self.frames_sent
    }

    /// A run at the requested frame interval (20 frames per second when none
    /// is requested) that the device's minimum interval bounds from below, with
    /// an optional duration: the first frame is due at once and none has been sent.
    pub fn new(requested_interval_ns: Option<u128>, min_update_interval_us: u64, stop_after_ns: Option<u128>) -> (clock: EffectClock)
        ensures
            clock.interval() == frame_interval(requested_interval_ns, min_update_interval_us),
            clock.interval() >= min_update_interval_us as int * 1000,
            clock.stop_after() == stop_after_ns,
            clock.next_frame() == 0,
            clock.sent() == 0,
    {
        let interval_ns = frame_interval_ns(requested_interval_ns, min_update_interval_us);
        EffectClock { interval_ns, stop_after_ns, next_frame_ns: 0, frames_sent: 0 }
    }

    /// The interval between frames, in nanoseconds.
    pub fn interval_ns(&self) -> (interval: u128)
        ensures
            interval == self.interval(),
    {
        self.interval_ns
    }

    /// The run is over: at least one frame was sent and the duration, if any,
    /// has elapsed.
    pub fn should_stop(&self, elapsed_ns: u128) -> (stop: bool)
        ensures
            stop == (self.sent() > 0 && match self.stop_after() {
                Some(limit) => elapsed_ns >= limit,
                None => false,
            }),
    {
        if self.frames_sent == 0 {
            return false;
        }
        match self.stop_after_ns {
            Some(limit) => elapsed_ns >= limit,
            None => false,
        }
    }

    /// Records a sent frame at time `now_ns` and tells until when to sleep: the
    /// next frame is due one interval after the later of the planned time and
    /// now, so a late frame is not followed by a burst of catch-up frames.
    pub fn frame_sent(&mut self, now_ns: u128) -> (sleep_until: Option<u128>)
        ensures
            final(self).interval() == old(self).interval(),
            final(self).stop_after() == old(self).stop_after(),
            final(self).sent() == if old(self).sent() < u64::MAX {
                old(self).sent() + 1
            } else {
                u64::MAX as int
            },
            old(self).next_frame() > now_ns ==> sleep_until == Some(old(self).next_frame()),
            old(self).next_frame() <= now_ns ==> sleep_until is None,
            final(self).next_frame() == u128::MAX || final(self).next_frame() >= now_ns
                + old(self).interval(),
            final(self).next_frame() == if vstd::math::max(old(self).next_frame() as int, now_ns as int)
                + old(self).interval() > u128::MAX {
                u128::MAX as int
            } else {
                vstd::math::max(old(self).next_frame() as int, now_ns as int) + old(self).interval()
            },
    {
        self.frames_sent = self.frames_sent.saturating_add(1);
        let sleep_until = if self.next_frame_ns > now_ns {
            Some(self.next_frame_ns)
        } else {
            self.next_frame_ns = now_ns;
            None
        };
        self.next_frame_ns = self.next_frame_ns.saturating_add(self.interval_ns);
        sleep_until
    }

    /// How many frames were sent (saturating at `u64::MAX`).
    pub fn frames_sent(&self) -> (sent: u64)
        ensures
            sent == self.sent(),
    {
        self.frames_sent
    }
}

} // verus!
