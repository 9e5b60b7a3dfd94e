//! A rate limiter: at least a fixed delay between consecutive requests.
//! The driver asks how long to wait and sleeps; the arithmetic is here.

use vstd::prelude::*;
use crate::cache::now_millis;

verus! {

/// Spaces requests at least `min_delay_ms` apart.
pub struct RateLimiter {
    last_request_time_ms: u64,
    min_delay_ms: u64,
}

impl RateLimiter {
    pub closed spec fn min_delay(&self) -> u64 {
        self.min_delay_ms
    }

    pub closed spec fn last_request(&self) -> u64 {
        self.last_request_time_ms
    }

    /// A limiter whose first request may go out immediately.
    pub fn new(min_delay_ms: u64) -> (r: RateLimiter)
        ensures
            r.min_delay() == min_delay_ms,
            r.last_request() + min_delay_ms <= u64::MAX,
            forall|t: u64|
                t >= r.last_request() + min_delay_ms ==> #[trigger] r.wait_needed(t) == 0,
    {
        let now = now_millis();
        let last = if now >= min_delay_ms {
            now - min_delay_ms
        } else {
            0
        };
        RateLimiter { last_request_time_ms: last, min_delay_ms }
    }

    /// How long a request at time `now` must still wait.
    pub open spec fn wait_needed(&self, now: u64) -> int {
        if now < self.last_request() {
            self.min_delay() as int
        } else if now - self.last_request() < self.min_delay() {
            self.min_delay() - (now - self.last_request())
        } else {
            0
        }
    }

    /// The milliseconds a request at time `now_ms` must wait before going
    /// out.
    pub fn delay_needed_at(&self, now_ms: u64) -> (r: u64)
        ensures
            r == self.wait_needed(now_ms),
    {
        if now_ms < self.last_request_time_ms {
            self.min_delay_ms
        } else if now_ms - self.last_request_time_ms < self.min_delay_ms {
            self.min_delay_ms - (now_ms - self.last_request_time_ms)
        } else {
            0
        }
    }

    /// Record that a request went out at time `now_ms`.
    pub fn note_request_at(&mut self, now_ms: u64)
        ensures
            final(self).min_delay() == old(self).min_delay(),
            final(self).last_request() == now_ms,
            final(self).wait_needed(now_ms) == old(self).min_delay(),
    {
        self.last_request_time_ms = now_ms;
    }
}

} // verus!
