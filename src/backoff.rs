//! Retry delays: exponential growth from a base, bounded by a ceiling, with
//! jitter drawn inside a window that keeps consecutive delays in order.
use vstd::prelude::*;

verus! {

/// `base` doubled `n` times.
pub open spec fn grown(base: int, n: nat) -> int
    decreases n,
{
    if n == 0 {
        base
    } else {
        2 * grown(base, (n - 1) as nat)
    }
}

proof fn lemma_grown_monotone(base: int, n: nat)
    requires
        base >= 0,
    ensures
        0 <= grown(base, n) <= grown(base, n + 1),
    decreases n,
{
    if n > 0 {
        lemma_grown_monotone(base, (n - 1) as nat);
    }
}

/// How long to wait before a retry, in milliseconds.
#[derive(Clone, Copy, Debug, PartialEq, Eq, Structural)]
pub struct BackoffPolicy {
    /// Upper end of the first delay.
    pub base_ms: u64,
    /// No delay exceeds this.
    pub ceiling_ms: u64,
}

impl BackoffPolicy {
    /// The upper end of the delay after `n` consecutive failures before it:
    /// the base doubled `n` times, but never above the ceiling.
    pub open spec fn upper(self, n: nat) -> int {
        let g = grown(self.base_ms as int, n);
        if g < self.ceiling_ms { g } else { self.ceiling_ms as int }
    }

    /// The lower end of that delay: half the first upper end for the first
    /// retry, and the previous upper end after that.
    pub open spec fn lower(self, n: nat) -> int {
        if n == 0 {
            self.upper(0) / 2
        } else {
            self.upper((n - 1) as nat)
        }
    }

    /// The delay for the retry after `n` earlier consecutive failures, with
    /// the random number `jitter` choosing a point of the window.
    pub open spec fn delay(self, n: nat, jitter: u64) -> int {
        self.lower(n) + (jitter as int) % (self.upper(n) - self.lower(n) + 1)
    }

    pub proof fn lemma_upper_monotone(self, n: nat)
        ensures
            0 <= self.upper(n) <= self.upper(n + 1) <= self.ceiling_ms,
    {
        lemma_grown_monotone(self.base_ms as int, n);
    }

    pub proof fn lemma_delay_window(self, n: nat, jitter: u64)
        ensures
            0 <= self.lower(n) <= self.delay(n, jitter) <= self.upper(n),
    {
        self.lemma_upper_monotone(n);
        if n > 0 {
            self.lemma_upper_monotone((n - 1) as nat);
        }
        let w = self.upper(n) - self.lower(n) + 1;
        assert(0 <= (jitter as int) % w < w);
    }

    /// Consecutive retry delays never shrink, whatever jitter each one drew,
    /// and none is above the ceiling.
    pub proof fn lemma_delays_ordered_and_bounded(self, n: nat, j1: u64, j2: u64)
        ensures
            0 <= self.delay(n, j1) <= self.delay(n + 1, j2) <= self.ceiling_ms,
    {
        self.lemma_delay_window(n, j1);
        self.lemma_delay_window(n + 1, j2);
        self.lemma_upper_monotone(n + 1);
    }

    /// A policy with the given base and ceiling.
    pub fn new(base_ms: u64, ceiling_ms: u64) -> (p: BackoffPolicy)
        ensures
            p.base_ms == base_ms,
            p.ceiling_ms == ceiling_ms,
    {
        BackoffPolicy { base_ms, ceiling_ms }
    }

    /// The upper end of the delay after `n` earlier consecutive failures.
    pub fn upper_ms(&self, n: u32) -> (r: u64)
        ensures
            r == self.upper(n as nat),
    {
        let cap = self.ceiling_ms;
        let mut d: u64 = if self.base_ms < cap { self.base_ms } else { cap };
        let mut i: u32 = 0;
        while i < n
            invariant
                i <= n,
                cap == self.ceiling_ms,
                d == self.upper(i as nat),
            decreases n - i,
        {
            proof {
                lemma_grown_monotone(self.base_ms as int, i as nat);
            }
            if d == cap || d == 0 {
                proof {
                    self.lemma_upper_fixed(i as nat, n as nat);
                }
                return d;
            }
            proof {
                assert(grown(self.base_ms as int, (i + 1) as nat) == 2 * grown(self.base_ms as int, i as nat));
            }
            d = if d > cap / 2 { cap } else { 2 * d };
            i = i + 1;
        }
        d
    }

    /// Once the upper end reaches the ceiling, or stays at zero, it stays there.
    proof fn lemma_upper_fixed(self, i: nat, k: nat)
        requires
            i <= k,
            self.upper(i) == self.ceiling_ms || self.upper(i) == 0,
        ensures
            self.upper(k) == self.upper(i),
        decreases k - i,
    {
        if i < k {
            let j = (k - 1) as nat;
            lemma_grown_monotone(self.base_ms as int, j);
            self.lemma_upper_fixed(i, j);
            assert(j + 1 == k);
            if self.upper(j) != self.ceiling_ms {
                assert(grown(self.base_ms as int, j) == 0);
                assert(grown(self.base_ms as int, k) == 2 * grown(self.base_ms as int, j));
            }
        }
    }

    /// The delay before the retry after `n` earlier consecutive failures,
    /// placed in its window by `jitter`.
    pub fn delay_ms(&self, n: u32, jitter: u64) -> (r: u64)
        ensures
            r == self.delay(n as nat, jitter),
    {
        let hi = self.upper_ms(n);
        let lo = if n == 0 { hi / 2 } else { self.upper_ms(n - 1) };
        proof {
            self.lemma_delay_window(n as nat, jitter);
        }
        let span = hi - lo;
        let off = if span == u64::MAX { jitter } else { jitter % (span + 1) };
        proof {
            if span == u64::MAX {
                assert((jitter as int) % (span + 1) == jitter as int);
            }
        }
        lo + off
    }
}

proof fn lemma_grown_ordered(base: int, a: nat, b: nat)
    requires
        base >= 0,
        a <= b,
    ensures
        grown(base, a) <= grown(base, b),
    decreases b - a,
{
    if a < b {
        lemma_grown_monotone(base, a);
        lemma_grown_ordered(base, a + 1, b);
    }
}

proof fn lemma_grown_base_ordered(b1: int, b2: int, n: nat)
    requires
        0 <= b1 <= b2,
    ensures
        grown(b1, n) <= grown(b2, n),
    decreases n,
{
    if n > 0 {
        lemma_grown_base_ordered(b1, b2, (n - 1) as nat);
    }
}

proof fn lemma_grown_one_64()
    ensures
        grown(1, 64) == 0x1_0000_0000_0000_0000int,
{
    reveal_with_fuel(grown, 65);
}

impl BackoffPolicy {
    /// After 64 doublings the upper end no longer moves: a positive base
    /// has passed every `u64` ceiling, and a zero base stays at zero.
    pub proof fn lemma_upper_settled(self, n: nat)
        requires
            n >= 64,
        ensures
            self.upper(n) == self.upper(n + 1),
    {
        let b = self.base_ms as int;
        lemma_grown_monotone(b, n);
        if b == 0 {
            lemma_grown_zero(n);
            lemma_grown_zero(n + 1);
        } else {
            lemma_grown_one_64();
            lemma_grown_base_ordered(1, b, 64);
            lemma_grown_ordered(b, 64, n);
        }
    }

    /// Once the failure count is past 64, every jitter gives the same delay:
    /// the window has closed to the ceiling (or to zero for a zero base).
    pub proof fn lemma_delay_settled(self, n: nat, j1: u64, j2: u64)
        requires
            n >= 65,
        ensures
            self.delay(n, j1) == self.delay(n, j2) == self.upper(n),
    {
        self.lemma_upper_settled((n - 1) as nat);
        assert(self.upper(n) - self.lower(n) + 1 == 1);
    }
}

proof fn lemma_grown_zero(n: nat)
    ensures
        grown(0, n) == 0,
    decreases n,
{
    if n > 0 {
        lemma_grown_zero((n - 1) as nat);
    }
}

} // verus!
