//! The least time between two requests.
use crate::decimal::{parse_u64, parsed_up_to};
use vstd::prelude::*;

verus! {

/// The number of nanoseconds in a second.
pub const NANOS_PER_SECOND: u128 = 1000000000;

/// The number of nanoseconds in a millisecond.
pub const NANOS_PER_MILLISECOND: u128 = 1000000;

/// The number that an environment variable holds, or a default where it is
/// missing or holds something else.
pub open spec fn setting_or(value: Option<&str>, max: nat, default: nat) -> nat {
    match value {
        Some(s) => match parsed_up_to(s@, max) {
            Some(v) => v,
            None => default,
        },
        None => default,
    }
}

/// The number in an environment variable, or a default.
pub fn u64_setting(value: Option<&str>, default: u64) -> (r: u64)
    ensures
        r == setting_or(value, u64::MAX as nat, default as nat),
{
    match value {
        Some(s) => match parse_u64(s) {
            Some(v) => v,
            None => default,
        },
        None => default,
    }
}

/// The least time between two requests, in milliseconds, for a value of the
/// environment variable; none where it is zero.
pub open spec fn interval_for(value: Option<&str>) -> Option<u64> {
    let ms = setting_or(value, u64::MAX as nat, 100);
    if ms == 0 {
        None
    } else {
        Some(ms as u64)
    }
}

/// The least time between two requests, in milliseconds.
pub fn get_rate_limit_ms(value: Option<&str>) -> (r: Option<u64>)
    ensures
        r == interval_for(value),
{
    let ms = u64_setting(value, 100);
    if ms == 0 {
        None
    } else {
        Some(ms)
    }
}

/// A span of time.
#[derive(Debug, Clone, Copy, PartialEq, Eq)]
pub struct Span {
    /// Whole seconds.
    pub secs: u64,
    /// The nanoseconds beyond them, fewer than a second has.
    pub nanos: u32,
}

impl Span {
    /// The nanoseconds stay below a second.
    pub open spec fn wf(self) -> bool {
        self.nanos < NANOS_PER_SECOND
    }

    /// The length of the span in nanoseconds.
    pub open spec fn length(self) -> int {
        self.secs * NANOS_PER_SECOND + self.nanos
    }
}

/// How many nanoseconds a request has to wait.
pub open spec fn wait_for(interval: u64, elapsed: Span) -> int {
    if elapsed.length() < interval * NANOS_PER_MILLISECOND {
        interval * NANOS_PER_MILLISECOND - elapsed.length()
    } else {
        0
    }
}

/// How long a request has to wait when `elapsed` has passed since the last one,
/// with an interval in milliseconds; none where it need not wait.
pub fn delay(interval: u64, elapsed: Span) -> (r: Option<Span>)
    requires
        elapsed.wf(),
    ensures
        match r {
            Some(wait) => wait.wf() && wait.length() == wait_for(interval, elapsed)
                && wait.length() > 0,
            None => wait_for(interval, elapsed) == 0,
        },
{
    let due: u128 = interval as u128 * NANOS_PER_MILLISECOND;
    let passed: u128 = elapsed.secs as u128 * NANOS_PER_SECOND + elapsed.nanos as u128;
    if passed < due {
        let wait: u128 = due - passed;
        Some(
            Span {
                secs: (wait / NANOS_PER_SECOND) as u64,
                nanos: (wait % NANOS_PER_SECOND) as u32,
            },
        )
    } else {
        None
    }
}

/// How long a request has to wait, for a value of the environment variable;
/// none where it need not wait.
pub fn rate_limit_middleware(value: Option<&str>, elapsed: Span) -> (r: Option<Span>)
    requires
        elapsed.wf(),
    ensures
        match interval_for(value) {
            Some(interval) => match r {
                Some(wait) => wait.wf() && wait.length() == wait_for(interval, elapsed)
                    && wait.length() > 0,
                None => wait_for(interval, elapsed) == 0,
            },
            None => r is None,
        },
{
    match get_rate_limit_ms(value) {
        Some(interval) => delay(interval, elapsed),
        None => None,
    }
}

/// A request that has waited as it should comes no sooner after the last one
/// than the interval says, and none waits longer than the interval.
pub proof fn requests_are_spaced(interval: u64, elapsed: Span)
    requires
        elapsed.wf(),
    ensures
        elapsed.length() + wait_for(interval, elapsed) >= interval * NANOS_PER_MILLISECOND,
        wait_for(interval, elapsed) <= interval * NANOS_PER_MILLISECOND,
{
}

} // verus!
