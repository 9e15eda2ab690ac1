//! A rate limiter that permits an action at most every `min_rate_ms`
//! milliseconds after a success, and applies an exponential backoff after
//! failures: the waiting time blends from `min_rate_ms` to `max_rate_ms`
//! as the square of the failure count over `n_max`.

use vstd::prelude::*;

verus! {

/// Largest timestamp (milliseconds) the limiter accepts; keeps additions
/// of timestamps and intervals inside `u64`.
pub const MAX_TIME_MS: u64 = 1000000000000000;

/// Allows failing actions to back off exponentially.  All times are in
/// milliseconds; `last` and `last_failed` hold at most one of the two
/// timestamps at a time.
#[derive(Clone, Copy, Debug)]
pub struct RateLimiter {
    /// Time of the last successful run, if the last run succeeded.
    pub last: Option<u64>,
    /// Time of the last failed run, if the last run failed.
    pub last_failed: Option<u64>,
    /// Consecutive failures so far, capped at `n_max`.
    pub n_failed: u64,
    /// Failure count at which the backoff reaches `max_rate_ms`.
    pub n_max: u64,
    /// Minimum interval between runs after a success.
    pub min_rate_ms: u64,
    /// Largest backoff interval, reached after `n_max` failures.
    pub max_rate_ms: u64,
}

impl RateLimiter {
    /// The bounds every limiter satisfies: tunables small enough that the
    /// backoff arithmetic stays inside `u64`, timestamps within
    /// `MAX_TIME_MS`, and the failure count capped.
    pub open spec fn wf(&self) -> bool {
        &&& 1 <= self.min_rate_ms <= self.max_rate_ms <= 1000000000
        &&& 1 <= self.n_max <= 1000
        &&& self.n_failed <= self.n_max
        &&& (self.last is Some ==> self.last->0 <= MAX_TIME_MS)
        &&& (self.last_failed is Some ==> self.last_failed->0 <= MAX_TIME_MS)
    }

    /// The backoff interval after `n_failed` consecutive failures:
    /// `min + (max - min) * (n_failed / n_max)^2`, rounded down.
    pub open spec fn spec_backoff(&self) -> int {
        self.min_rate_ms + ((self.max_rate_ms - self.min_rate_ms) * self.n_failed
            * self.n_failed) / (self.n_max * self.n_max)
    }

    /// When the limiter lets the action run: always if it never ran; after
    /// the minimum interval if the last run succeeded; after the backoff
    /// interval if the last run failed.
    pub open spec fn spec_should_run(&self, now: u64) -> bool {
        match (self.last, self.last_failed) {
            (Option::None, Option::None) => true,
            (Option::Some(l), Option::None) => now >= l + self.min_rate_ms,
            (Option::None, Option::Some(f)) => now >= f + self.spec_backoff(),
            (Option::Some(_), Option::Some(_)) => false,
        }
    }

    /// The limiter as it stands after a successful run at `now`: the
    /// success timestamp set, the failure timestamp cleared, the failure
    /// count reset, the tunables kept.
    pub open spec fn spec_after_success(&self, now: u64) -> RateLimiter {
        RateLimiter {
            last: Option::Some(now),
            last_failed: Option::None,
            n_failed: 0,
            ..*self
        }
    }

    /// The limiter as it stands after a failed run at `now`: the failure
    /// timestamp set, the success timestamp cleared, the failure count
    /// grown by one (saturating at `n_max`), the tunables kept.
    pub open spec fn spec_after_failure(&self, now: u64) -> RateLimiter {
        RateLimiter {
            last: Option::None,
            last_failed: Option::Some(now),
            n_failed: if self.n_failed < self.n_max {
                (self.n_failed + 1) as u64
            } else {
                self.n_failed
            },
            ..*self
        }
    }

    /// Create a fresh limiter with the default tunables: a one-second
    /// minimum interval, a two-minute maximum, reached after ten failures.
    pub fn new() -> (r: Self)
        ensures
            r.wf(),
            r.last is None,
            r.last_failed is None,
            r.n_failed == 0,
            r.n_max == 10,
            r.min_rate_ms == 1000,
            r.max_rate_ms == 120000,
    {
        RateLimiter {
            last: Option::None,
            last_failed: Option::None,
            n_failed: 0,
            n_max: 10,
            min_rate_ms: 1000,
            max_rate_ms: 120000,
        }
    }

    /// Record a successful run at `now`, resetting the failure count.
    pub fn set_last(&mut self, now: u64)
        requires
            old(self).wf(),
            now <= MAX_TIME_MS,
        ensures
            final(self).wf(),
            *final(self) == old(self).spec_after_success(now),
    {
        self.last = Option::Some(now);
        self.last_failed = Option::None;
        self.n_failed = 0;
    }

    /// Record a failed run at `now`, lengthening the next backoff; the
    /// failure count saturates at `n_max`.
    pub fn set_last_failed(&mut self, now: u64)
        requires
            old(self).wf(),
            now <= MAX_TIME_MS,
        ensures
            final(self).wf(),
            *final(self) == old(self).spec_after_failure(now),
    {
        self.last_failed = Option::Some(now);
        self.last = Option::None;
        if self.n_failed < self.n_max {
            self.n_failed = self.n_failed + 1;
        }
    }

    /// Whether the action may run at `now`.
    pub fn should_run(&self, now: u64) -> (r: bool)
        requires
            self.wf(),
        ensures
            r == self.spec_should_run(now),
    {
        match (self.last, self.last_failed) {
            (Option::None, Option::None) => true,
            (Option::Some(l), Option::None) => now >= l + self.min_rate_ms,
            (Option::None, Option::Some(f)) => {
                let backoff = self.calculate_backoff();
                now >= f + backoff
            },
            (Option::Some(_), Option::Some(_)) => false,
        }
    }

    /// The backoff interval in milliseconds for the current failure count.
    pub fn calculate_backoff(&self) -> (r: u64)
        requires
            self.wf(),
        ensures
            r == self.spec_backoff(),
            r <= self.max_rate_ms,
    {
        let spread = self.max_rate_ms - self.min_rate_ms;
        let k = self.n_failed;
        let n = self.n_max;
        proof {
            assert(1 <= n * n <= 1000000) by (nonlinear_arith)
                requires
                    1 <= n <= 1000,
            ;
            assert(spread * k <= 1000000000000) by (nonlinear_arith)
                requires
                    0 <= spread <= 1000000000,
                    0 <= k <= 1000,
            ;
            assert(spread * k * k <= spread * n * n) by (nonlinear_arith)
                requires
                    k <= n,
                    0 <= spread,
            ;
            assert(spread * n * n <= 1000000000000000) by (nonlinear_arith)
                requires
                    0 <= spread <= 1000000000,
                    0 <= n <= 1000,
            ;
            assert(spread * n * n / (n * n) == spread) by (nonlinear_arith)
                requires
                    1 <= n,
                    0 <= spread,
            ;
            assert(spread * k * k / (n * n) <= spread * n * n / (n * n)) by {
                vstd::arithmetic::div_mod::lemma_div_is_ordered(
                    spread * k * k,
                    spread * n * n,
                    n * n,
                );
            }
        }
        self.min_rate_ms + spread * k * k / (n * n)
    }
}

impl Default for RateLimiter {
    /// A fresh limiter equals `RateLimiter::new()`.
    fn default() -> (r: Self)
        ensures
            r.wf(),
            r.last is None,
            r.last_failed is None,
            r.n_failed == 0,
    {
        RateLimiter::new()
    }
}

/// The backoff law: with the default tunables, after `k` consecutive
/// failures the last of which happened at time `t`, the limiter refuses to
/// run until `1000 + 1190 * k * k` milliseconds have passed, and permits
/// the run from that point on.
pub proof fn lemma_backoff_law(rl: RateLimiter, t: u64, k: u64, now: u64)
    requires
        rl.wf(),
        rl.min_rate_ms == 1000,
        rl.max_rate_ms == 120000,
        rl.n_max == 10,
        rl.n_failed == k,
        rl.last is None,
        rl.last_failed == Option::Some(t),
    ensures
        rl.spec_backoff() == 1000 + 1190 * k * k,
        now < t + 1000 + 1190 * k * k ==> !rl.spec_should_run(now),
        now >= t + 1000 + 1190 * k * k ==> rl.spec_should_run(now),
{
    assert(119000 * k * k / 100 == 1190 * (k * k)) by (nonlinear_arith)
        requires
            0 <= k,
    ;
    assert(rl.spec_backoff() == 1000 + 1190 * k * k) by (nonlinear_arith)
        requires
            rl.spec_backoff() == 1000 + (119000 * k * k) / 100,
            119000 * k * k / 100 == 1190 * (k * k),
    ;
}

} // verus!
