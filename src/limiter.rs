//! The per-address, fixed-window request limiter: every address may make a
//! few requests per wall-clock minute, and all counts restart together when
//! the minute changes.
use std::collections::HashMap;
use vstd::prelude::*;

verus! {

broadcast use vstd::std_specs::hash::group_hash_axioms;

/// Requests allowed from one address within one minute.
pub const MAX_CURRENT_LIMITING: u32 = 3;

/// The minute that the time `now` (in seconds) falls in.
pub open spec fn window_of(now: u64) -> u64 {
    now / 60
}

/// How many requests the address `ip` has made, by the table `m`.
pub open spec fn count_of(m: Map<u32, u32>, ip: u32) -> u32 {
    if m.contains_key(ip) { m[ip] } else { 0 }
}

/// One step of the limiter, from the minute `window` and the counts `m`,
/// for a request from `ip` at `now`: the new minute, the new counts, and
/// whether the request is let through.
pub open spec fn limit_step(window: u64, m: Map<u32, u32>, ip: u32, now: u64) -> (u64, Map<u32, u32>, bool) {
    let w = window_of(now);
    let base = if w == window { m } else { Map::empty() };
    let c = count_of(base, ip);
    let n = if c < u32::MAX { (c + 1) as u32 } else { c };
    (w, base.insert(ip, n), n <= MAX_CURRENT_LIMITING)
}

/// The current minute and the request count of each address within it.
pub struct RateLimiter {
    window: u64,
    counts: HashMap<u32, u32>,
}

impl RateLimiter {
    /// The minute that the counts belong to.
    pub closed spec fn window(&self) -> u64 {
        self.window
    }

    /// The request count of each address within the current minute.
    pub closed spec fn counts(&self) -> Map<u32, u32> {
        self.counts@
    }

    /// A limiter with no requests counted.
    pub fn new() -> (r: RateLimiter)
        ensures
            r.window() == 0,
            r.counts() == Map::<u32, u32>::empty(),
    {
        RateLimiter { window: 0, counts: HashMap::new() }
    }

    /// Counts a request from `ip` at `now` and tells whether it is within
    /// the limit; a new minute first clears every count.
    pub fn check_limit(&mut self, ip: u32, now: u64) -> (r: bool)
        ensures
            (final(self).window(), final(self).counts(), r) == limit_step(
                old(self).window(),
                old(self).counts(),
                ip,
                now,
            ),
    {
        let w = now / 60;
        if w != self.window {
            self.window = w;
            self.counts.clear();
        }
        let c: u32 = match self.counts.get(&ip) {
            Some(v) => *v,
            None => 0,
        };
        let n = c.saturating_add(1);
        self.counts.insert(ip, n);
        n <= MAX_CURRENT_LIMITING
    }
}

/// Within one minute, starting from no requests by `ip` in that minute, the
/// first three requests from `ip` are let through and the fourth is not; the
/// first request in a later minute is let through again.
pub proof fn lemma_fixed_window(
    window: u64,
    m: Map<u32, u32>,
    ip: u32,
    t1: u64,
    t2: u64,
    t3: u64,
    t4: u64,
    t5: u64,
)
    requires
        window != window_of(t1) || count_of(m, ip) == 0,
        window_of(t2) == window_of(t1),
        window_of(t3) == window_of(t1),
        window_of(t4) == window_of(t1),
        window_of(t5) != window_of(t1),
    ensures
        ({
            let s1 = limit_step(window, m, ip, t1);
            let s2 = limit_step(s1.0, s1.1, ip, t2);
            let s3 = limit_step(s2.0, s2.1, ip, t3);
            let s4 = limit_step(s3.0, s3.1, ip, t4);
            let s5 = limit_step(s4.0, s4.1, ip, t5);
            s1.2 && s2.2 && s3.2 && !s4.2 && s5.2
        }),
{
}

} // verus!
