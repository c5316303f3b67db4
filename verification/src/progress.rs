//! The policy that throttles progress lines.

use crate::timebase::TimeBase;
use vstd::prelude::*;

verus! {

/// A line is due only after this many frames since the last one,
pub const LOG_FRAME_INTERVAL: u64 = 100;

/// and only after this many microseconds since the last one.
pub const LOG_TIME_INTERVAL: u64 = 1_000_000;

/// What one progress line reports: wall-clock microseconds since the unit was
/// set up, the cumulative frame count, and the decoded timestamp with the base
/// it is counted in.
#[derive(Clone, Copy, Debug, PartialEq, Eq, Structural)]
pub struct ProgressReport {
    pub elapsed: u64,
    pub frame_count: u64,
    pub timestamp: i64,
    pub time_base: TimeBase,
}

/// The throttle's memory. Times are readings of one monotonic clock, in
/// microseconds.
#[derive(Clone, Copy, Debug, PartialEq, Eq, Structural)]
pub struct ProgressLog {
    pub enabled: bool,
    pub last_log_frame_count: u64,
    pub start_time: u64,
    pub last_log_time: u64,
}

/// `later - earlier`, or 0 where the clock reading is not later.
pub open spec fn elapsed_between(earlier: u64, later: u64) -> u64 {
    if later >= earlier {
        (later - earlier) as u64
    } else {
        0
    }
}

fn elapsed(earlier: u64, later: u64) -> (d: u64)
    ensures
        d == elapsed_between(earlier, later),
{
    if later >= earlier {
        later - earlier
    } else {
        0
    }
}

impl ProgressLog {
    /// A throttle that starts both intervals at `now`.
    pub fn new(enabled: bool, now: u64) -> (log: ProgressLog)
        ensures
            log == (ProgressLog {
                enabled,
                last_log_frame_count: 0,
                start_time: now,
                last_log_time: now,
            }),
    {
        ProgressLog { enabled, last_log_frame_count: 0, start_time: now, last_log_time: now }
    }

    /// A line is due at frame count `frame_count` and time `now`: logging is
    /// enabled, and both the frame interval and the time interval have passed
    /// since the last line.
    pub open spec fn due(self, frame_count: u64, now: u64) -> bool {
        &&& self.enabled
        &&& elapsed_between(self.last_log_frame_count, frame_count) >= LOG_FRAME_INTERVAL
        &&& elapsed_between(self.last_log_time, now) >= LOG_TIME_INTERVAL
    }

    /// The throttle after frame `frame_count` was seen at time `now`.
    pub open spec fn observed(self, frame_count: u64, now: u64) -> ProgressLog {
        if self.due(frame_count, now) {
            ProgressLog { last_log_frame_count: frame_count, last_log_time: now, ..self }
        } else {
            self
        }
    }

    /// The line for frame `frame_count`, if one is due.
    pub open spec fn report(
        self,
        frame_count: u64,
        now: u64,
        timestamp: Option<i64>,
        time_base: TimeBase,
    ) -> Option<ProgressReport> {
        if self.due(frame_count, now) {
            Some(
                ProgressReport {
                    elapsed: elapsed_between(self.start_time, now),
                    frame_count,
                    timestamp: match timestamp {
                        Some(t) => t,
                        None => 0,
                    },
                    time_base,
                },
            )
        } else {
            None
        }
    }

    /// Takes note of one decoded frame: `frame_count` is the cumulative count
    /// including it, `timestamp` its timestamp in `time_base`. Returns the
    /// line to print, if one is due, and then starts both intervals anew.
    pub fn observe(
        &mut self,
        frame_count: u64,
        now: u64,
        timestamp: Option<i64>,
        time_base: TimeBase,
    ) -> (line: Option<ProgressReport>)
        ensures
            line == old(self).report(frame_count, now, timestamp, time_base),
            *final(self) == old(self).observed(frame_count, now),
    {
        if !self.enabled || elapsed(self.last_log_frame_count, frame_count) < LOG_FRAME_INTERVAL
            || elapsed(self.last_log_time, now) < LOG_TIME_INTERVAL {
            return None;
        }
        let line = ProgressReport {
            elapsed: elapsed(self.start_time, now),
            frame_count,
            timestamp: match timestamp {
                Some(t) => t,
                None => 0,
            },
            time_base,
        };
        self.last_log_frame_count = frame_count;
        self.last_log_time = now;
        Some(line)
    }
}

/// A line is never early: when one is emitted, at least the frame interval
/// and the time interval lie between it and the line before, and the throttle
/// then remembers this line as the last one.
pub proof fn lemma_no_line_before_thresholds(
    log: ProgressLog,
    frame_count: u64,
    now: u64,
    timestamp: Option<i64>,
    time_base: TimeBase,
)
    requires
        log.report(frame_count, now, timestamp, time_base) is Some,
    ensures
        log.enabled,
        frame_count - log.last_log_frame_count >= LOG_FRAME_INTERVAL,
        now - log.last_log_time >= LOG_TIME_INTERVAL,
        log.observed(frame_count, now).last_log_frame_count == frame_count,
        log.observed(frame_count, now).last_log_time == now,
        !log.observed(frame_count, now).due(frame_count, now),
{
}

/// A line is never withheld: with logging enabled, once both thresholds are
/// crossed the frame that crosses the second one is reported.
pub proof fn lemma_line_once_both_thresholds(
    log: ProgressLog,
    frame_count: u64,
    now: u64,
    timestamp: Option<i64>,
    time_base: TimeBase,
)
    requires
        log.enabled,
        frame_count >= log.last_log_frame_count + LOG_FRAME_INTERVAL,
        now >= log.last_log_time + LOG_TIME_INTERVAL,
    ensures
        log.report(frame_count, now, timestamp, time_base) is Some,
        log.report(frame_count, now, timestamp, time_base)->Some_0.frame_count == frame_count,
{
}

/// With logging disabled no frame is ever reported and nothing is remembered.
pub proof fn lemma_disabled_is_silent(
    log: ProgressLog,
    frame_count: u64,
    now: u64,
    timestamp: Option<i64>,
    time_base: TimeBase,
)
    requires
        !log.enabled,
    ensures
        log.report(frame_count, now, timestamp, time_base) is None,
        log.observed(frame_count, now) == log,
{
}

} // verus!
