//! Restart backoff and circuit-breaker arithmetic. No clocks: the caller
//! reports observed uptimes and receives decisions.

use vstd::arithmetic::power::pow;
use vstd::prelude::*;

verus! {

pub const BASE_MS: u64 = 100;

pub const FACTOR: u64 = 2;

pub const MAX_MS: u64 = 30_000;

/// A run that survives this long resets the consecutive-failure counter.
pub const STABLE_MS: u64 = 5_000;

/// Consecutive quick exits before the breaker opens.
pub const BREAKER_THRESHOLD: u32 = 5;

#[derive(Debug, Clone, Copy, PartialEq, Eq, Structural)]
pub enum Decision {
    /// Restart after `delay` milliseconds.
    Restart { delay: u64 },
    Open,
}

/// Tracks consecutive quick exits for one unit.
#[derive(Debug, Clone, Copy, PartialEq, Eq, Structural)]
pub struct Breaker {
    consecutive: u32,
}

/// The delay after the `n`-th consecutive quick exit, in milliseconds.
pub open spec fn delay_after(n: int) -> int {
    let raw = BASE_MS * pow(FACTOR as int, (n - 1) as nat);
    if raw < MAX_MS {
        raw
    } else {
        MAX_MS as int
    }
}

/// What follows the `n`-th consecutive quick exit.
pub open spec fn decided(n: int) -> Decision {
    if n >= BREAKER_THRESHOLD {
        Decision::Open
    } else {
        Decision::Restart { delay: delay_after(n) as u64 }
    }
}

/// How many exits in a row were quick, this one counted, given how many were
/// before it.
pub open spec fn counted(before: int, uptime_ms: u64) -> int {
    if uptime_ms >= STABLE_MS {
        1
    } else {
        before + 1
    }
}

impl Breaker {
    /// How many exits in a row were quick.
    pub closed spec fn failures(self) -> int {
        self.consecutive as int
    }

    pub fn new() -> (r: Self)
        ensures
            r.failures() == 0,
    {
        Breaker { consecutive: 0 }
    }

    /// Report a process exit with the given uptime in milliseconds; returns
    /// what to do. Any exit counts — a clean-exit loop is as much a crash
    /// loop as a panic loop.
    pub fn on_exit(&mut self, uptime_ms: u64) -> (r: Decision)
        requires
            old(self).failures() < u32::MAX,
        ensures
            final(self).failures() == counted(old(self).failures(), uptime_ms),
            r == decided(final(self).failures()),
    {
        if uptime_ms >= STABLE_MS {
            self.consecutive = 0;
        }
        self.consecutive = self.consecutive + 1;
        if self.consecutive >= BREAKER_THRESHOLD {
            return Decision::Open;
        }
        let exp = self.consecutive - 1;
        let mut delay = BASE_MS;
        let mut i: u32 = 0;
        proof {
            vstd::arithmetic::power::lemma_pow0(FACTOR as int);
        }
        while i < exp
            invariant
                i <= exp < 4,
                delay == BASE_MS * pow(FACTOR as int, i as nat),
                delay <= BASE_MS * 16,
                i == 0 ==> delay == 100,
                i == 1 ==> delay == 200,
                i == 2 ==> delay == 400,
                i == 3 ==> delay == 800,
            decreases exp - i,
        {
            proof {
                vstd::arithmetic::power::lemma_pow_adds(FACTOR as int, 1, i as nat);
                vstd::arithmetic::power::lemma_pow1(FACTOR as int);
            }
            delay = delay * FACTOR;
            i = i + 1;
        }
        if delay > MAX_MS {
            delay = MAX_MS;
        }
        Decision::Restart { delay }
    }
}

/// The delay doubles from one quick exit to the next until it meets its cap.
pub proof fn law_delay_doubles(n: int)
    requires
        n >= 1,
    ensures
        delay_after(1) == BASE_MS,
        delay_after(n + 1) == if FACTOR * delay_after(n) < MAX_MS {
            FACTOR * delay_after(n)
        } else {
            MAX_MS as int
        },
{
    let m = (n - 1) as nat;
    vstd::arithmetic::power::lemma_pow0(FACTOR as int);
    vstd::arithmetic::power::lemma_pow1(FACTOR as int);
    vstd::arithmetic::power::lemma_pow_adds(FACTOR as int, 1, m);
    vstd::arithmetic::power::lemma_pow_positive(FACTOR as int, m);
    assert(1 + m == (n + 1 - 1) as nat);
}

/// No delay is longer than the cap, and none is shorter than the base.
pub proof fn law_delay_is_bounded(n: int)
    requires
        n >= 1,
    ensures
        BASE_MS <= delay_after(n) <= MAX_MS,
{
    vstd::arithmetic::power::lemma_pow_positive(FACTOR as int, (n - 1) as nat);
}

/// A run that was stable starts the count over: whatever went before, the
/// next restart comes after the base delay.
pub proof fn law_stable_run_resets(before: int, uptime_ms: u64)
    requires
        uptime_ms >= STABLE_MS,
    ensures
        decided(counted(before, uptime_ms)) == (Decision::Restart { delay: BASE_MS }),
{
    vstd::arithmetic::power::lemma_pow0(FACTOR as int);
}

} // verus!
