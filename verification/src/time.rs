//! Periodic-pulse and countdown primitives.
//!
//! Durations are plain `u64` tick counts; a caller picks the unit
//! (milliseconds, nanoseconds) and uses it consistently.

use vstd::prelude::*;

verus! {

/// A fixed-period pulse generator with carry-over: `tick` accumulates
/// elapsed time and reports a pulse whenever the accumulator exceeds the
/// threshold, keeping the overflow for the next period.
#[derive(Debug, Clone, Copy, PartialEq, Eq, Structural)]
pub struct Threshold {
    /// Elapsed time accumulated since the last pulse.
    pub acc: u64,
    /// Period of the pulse.
    pub threshold: u64,
}

impl Default for Threshold {
    fn default() -> (r: Self)
        ensures
            r.acc == 0,
            r.threshold == 0,
    {
        Threshold { acc: 0, threshold: 0 }
    }
}

impl Threshold {
    pub fn new(threshold: u64) -> (r: Self)
        ensures
            r.acc == 0,
            r.threshold == threshold,
    {
        Threshold { acc: 0, threshold }
    }

    pub fn set_threshold(&mut self, threshold: u64)
        ensures
            final(self).threshold == threshold,
            final(self).acc == old(self).acc,
    {
        self.threshold = threshold;
    }

    /// Advances the accumulator by `dt`; fires (returns true) when the
    /// accumulated time exceeds the threshold, and then subtracts one
    /// period, keeping the overflow. A `dt` that skips several periods
    /// still fires only once; the rest stays in the accumulator.
    pub fn tick(&mut self, dt: u64) -> (fired: bool)
        requires
            old(self).acc + dt <= u64::MAX,
        ensures
            fired == (old(self).acc + dt > old(self).threshold),
            final(self).acc == if old(self).acc + dt > old(self).threshold {
                old(self).acc + dt - old(self).threshold
            } else {
                old(self).acc + dt
            },
            final(self).threshold == old(self).threshold,
    {
        self.acc = self.acc + dt;
        if self.acc > self.threshold {
            self.acc = self.acc - self.threshold;
            true
        } else {
            false
        }
    }

    pub fn reset(&mut self)
        ensures
            final(self).acc == 0,
            final(self).threshold == old(self).threshold,
    {
        self.acc = 0;
    }

    /// Fraction of the current period already elapsed, as the exact ratio
    /// (accumulator, threshold). It can exceed one momentarily after a
    /// large non-firing `dt`; callers interpolating animation should clamp.
    pub fn progress(&self) -> (r: (u64, u64))
        ensures
            r.0 == self.acc,
            r.1 == self.threshold,
    {
        (self.acc, self.threshold)
    }
}

/// A countdown: `cool_down` arms it with the configured duration and
/// `tick` counts down with saturating subtraction until it reaches zero.
#[derive(Debug, Clone, Copy, PartialEq, Eq, Structural)]
pub struct Cooldown {
    /// Remaining time; zero once the countdown has run out.
    pub acc: u64,
    /// Duration loaded by `cool_down`.
    pub cooldown: u64,
}

impl Default for Cooldown {
    fn default() -> (r: Self)
        ensures
            r.acc == 0,
            r.cooldown == 0,
    {
        Cooldown { acc: 0, cooldown: 0 }
    }
}

impl Cooldown {
    pub fn new(cooldown: u64) -> (r: Self)
        ensures
            r.acc == 0,
            r.cooldown == cooldown,
    {
        Cooldown { acc: 0, cooldown }
    }

    pub fn set_cooldown(&mut self, cooldown: u64)
        ensures
            final(self).cooldown == cooldown,
            final(self).acc == old(self).acc,
    {
        self.cooldown = cooldown;
    }

    /// Counts down by `dt`, never below zero.
    pub fn tick(&mut self, dt: u64)
        ensures
            final(self).acc == if dt >= old(self).acc { 0 } else { old(self).acc - dt },
            final(self).cooldown == old(self).cooldown,
    {
        if dt >= self.acc {
            self.acc = 0;
        } else {
            self.acc = self.acc - dt;
        }
    }

    pub fn is_cooling_down(&self) -> (r: bool)
        ensures
            r == (self.acc != 0),
    {
        self.acc != 0
    }

    pub fn reset(&mut self)
        ensures
            final(self).acc == 0,
            final(self).cooldown == old(self).cooldown,
    {
        self.acc = 0;
    }

    /// Arms the countdown: the full duration must elapse before it runs out.
    pub fn cool_down(&mut self)
        ensures
            final(self).acc == old(self).cooldown,
            final(self).cooldown == old(self).cooldown,
    {
        self.acc = self.cooldown;
    }

    /// Fraction of the cooldown already elapsed, as the exact ratio
    /// (elapsed, duration); equal to one exactly when the countdown ran out.
    pub fn progress(&self) -> (r: (u64, u64))
        ensures
            r.0 == if self.acc >= self.cooldown { 0 } else { self.cooldown - self.acc },
            r.1 == self.cooldown,
    {
        if self.acc >= self.cooldown {
            (0, self.cooldown)
        } else {
            (self.cooldown - self.acc, self.cooldown)
        }
    }
}

/// Accumulator of a threshold timer after `n` ticks of `dt` each, starting
/// from an empty accumulator: the recurrence that `Threshold::tick` ensures,
/// written over unbounded integers.
pub open spec fn timer_acc_after(threshold: int, dt: int, n: nat) -> int
    decreases n,
{
    if n == 0 {
        0
    } else {
        let prev = timer_acc_after(threshold, dt, (n - 1) as nat);
        if prev + dt > threshold {
            prev + dt - threshold
        } else {
            prev + dt
        }
    }
}

/// Whether the `n`-th tick (counting from one) of a run of fixed-`dt` ticks
/// fires.
pub open spec fn timer_fires_at(threshold: int, dt: int, n: nat) -> bool
    recommends
        n >= 1,
{
    timer_acc_after(threshold, dt, (n - 1) as nat) + dt > threshold
}

proof fn lemma_timer_acc_closed_form(q: int, dt: int, n: nat)
    requires
        1 <= dt,
        1 <= q,
    ensures
        timer_acc_after(q * dt, dt, n) == if n == 0 { 0 } else { ((n - 1) % q + 1) * dt },
    decreases n,
{
    if n == 0 {
    } else if n == 1 {
        assert(timer_acc_after(q * dt, dt, 0) == 0);
        assert(timer_acc_after(q * dt, dt, 1) == if dt > q * dt { dt - q * dt } else { dt });
        assert(dt <= q * dt) by (nonlinear_arith)
            requires 1 <= dt && 1 <= q;
        assert((1int - 1) % q == 0) by {
            vstd::arithmetic::div_mod::lemma_small_mod(0, q as nat);
        }
    } else {
        lemma_timer_acc_closed_form(q, dt, (n - 1) as nat);
        let r = (n - 2) % q;
        assert(0 <= r < q) by {
            vstd::arithmetic::div_mod::lemma_mod_bound(n - 2, q);
        }
        let prev = (r + 1) * dt;
        assert(timer_acc_after(q * dt, dt, (n - 1) as nat) == prev);
        assert((n - 1) % q == (r + 1) % q) by {
            vstd::arithmetic::div_mod::lemma_mod_add_multiples_vanish(n - 2, q);
            assert((n - 1) % q == ((n - 2) + 1) % q);
            vstd::arithmetic::div_mod::lemma_add_mod_noop(n - 2, 1, q);
            assert(((n - 2) + 1) % q == ((n - 2) % q + 1int % q) % q);
            if q == 1 {
                vstd::arithmetic::div_mod::lemma_mod_self_0(q);
                vstd::arithmetic::div_mod::lemma_mod_bound(r + 1, q);
            } else {
                vstd::arithmetic::div_mod::lemma_small_mod(1, q as nat);
            }
        }
        if r == q - 1 {
            assert(prev + dt == (q + 1) * dt) by (nonlinear_arith)
                requires prev == (r + 1) * dt && r == q - 1;
            assert((q + 1) * dt > q * dt) by (nonlinear_arith)
                requires 1 <= dt;
            assert(timer_acc_after(q * dt, dt, n) == prev + dt - q * dt);
            assert(prev + dt - q * dt == dt) by (nonlinear_arith)
                requires prev + dt == (q + 1) * dt;
            assert((r + 1) % q == 0) by {
                vstd::arithmetic::div_mod::lemma_mod_self_0(q);
            }
            assert(((n - 1) % q + 1) * dt == dt);
        } else {
            assert(prev + dt == (r + 2) * dt) by (nonlinear_arith)
                requires prev == (r + 1) * dt;
            assert((r + 2) * dt <= q * dt) by (nonlinear_arith)
                requires 1 <= dt && r + 2 <= q;
            assert(timer_acc_after(q * dt, dt, n) == prev + dt);
            assert((r + 1) % q == r + 1) by {
                vstd::arithmetic::div_mod::lemma_small_mod((r + 1) as nat, q as nat);
            }
        }
    }
}

/// LAW: a threshold timer whose period is an exact multiple `q` of the fixed
/// step `dt` fires exactly on ticks 1 + q, 1 + 2q, 1 + 3q, ... — that is,
/// exactly once every `threshold / dt` ticks once running, and never twice
/// for the same step.
pub proof fn lemma_timer_fixed_cadence(q: int, dt: int, n: nat)
    requires
        1 <= dt,
        1 <= q,
        n >= 1,
    ensures
        timer_fires_at(q * dt, dt, n) <==> (n >= 2 && (n - 1) % q == 0),
{
    lemma_timer_acc_closed_form(q, dt, (n - 1) as nat);
    if n == 1 {
        assert(timer_acc_after(q * dt, dt, 0) == 0);
        assert(dt <= q * dt) by (nonlinear_arith)
            requires 1 <= dt && 1 <= q;
    } else {
        let r = (n - 2) % q;
        assert(0 <= r < q) by {
            vstd::arithmetic::div_mod::lemma_mod_bound(n - 2, q);
        }
        assert(timer_acc_after(q * dt, dt, (n - 1) as nat) == (r + 1) * dt);
        assert((n - 1) % q == (r + 1) % q) by {
            vstd::arithmetic::div_mod::lemma_add_mod_noop(n - 2, 1, q);
            if q == 1 {
                vstd::arithmetic::div_mod::lemma_mod_self_0(q);
                vstd::arithmetic::div_mod::lemma_mod_bound(r + 1, q);
            } else {
                vstd::arithmetic::div_mod::lemma_small_mod(1, q as nat);
            }
        }
        if r == q - 1 {
            assert((r + 1) * dt + dt == (q + 1) * dt && (q + 1) * dt > q * dt) by (nonlinear_arith)
                requires 1 <= dt && r == q - 1;
            assert((r + 1) % q == 0) by {
                vstd::arithmetic::div_mod::lemma_mod_self_0(q);
            }
        } else {
            assert((r + 1) * dt + dt == (r + 2) * dt && (r + 2) * dt <= q * dt) by (nonlinear_arith)
                requires 1 <= dt && 0 <= r && r + 2 <= q;
            assert((r + 1) % q == r + 1) by {
                vstd::arithmetic::div_mod::lemma_small_mod((r + 1) as nat, q as nat);
            }
        }
    }
}

/// Remaining time of a cooldown armed with `cooldown`, after ticking with
/// each step of `dts` in turn: the recurrence that `Cooldown::tick` ensures.
pub open spec fn cooldown_acc_after(cooldown: int, dts: Seq<int>) -> int
    decreases dts.len(),
{
    if dts.len() == 0 {
        cooldown
    } else {
        let prev = cooldown_acc_after(cooldown, dts.drop_last());
        if dts.last() >= prev {
            0
        } else {
            prev - dts.last()
        }
    }
}

/// Sum of a sequence of durations.
pub open spec fn duration_sum(dts: Seq<int>) -> int
    decreases dts.len(),
{
    if dts.len() == 0 {
        0
    } else {
        duration_sum(dts.drop_last()) + dts.last()
    }
}

/// The remaining time is the armed duration minus the total elapsed time,
/// saturated at zero.
pub proof fn lemma_cooldown_remaining(cooldown: int, dts: Seq<int>)
    requires
        cooldown >= 0,
        forall|i: int| 0 <= i < dts.len() ==> #[trigger] dts[i] >= 0,
    ensures
        cooldown_acc_after(cooldown, dts) == if duration_sum(dts) >= cooldown {
            0int
        } else {
            cooldown - duration_sum(dts)
        },
    decreases dts.len(),
{
    if dts.len() == 0 {
    } else {
        let prefix = dts.drop_last();
        assert(forall|i: int| 0 <= i < prefix.len() ==> #[trigger] prefix[i] >= 0) by {
            assert(forall|i: int| 0 <= i < prefix.len() ==> prefix[i] == #[trigger] dts[i]);
        }
        lemma_cooldown_remaining(cooldown, prefix);
    }
}

/// LAW: a cooldown armed with duration `cooldown` and ticked with steps
/// totalling at least `cooldown` has nothing left: it no longer reports
/// cooling down, and its progress ratio is exactly one.
pub proof fn lemma_cooldown_elapsed(cooldown: int, dts: Seq<int>)
    requires
        cooldown >= 0,
        forall|i: int| 0 <= i < dts.len() ==> #[trigger] dts[i] >= 0,
        duration_sum(dts) >= cooldown,
    ensures
        cooldown_acc_after(cooldown, dts) == 0,
{
    lemma_cooldown_remaining(cooldown, dts);
}

} // verus!
