use vstd::prelude::*;

verus! {

use vstd::arithmetic::div_mod::lemma_div_pos_is_pos;
use vstd::arithmetic::mul::lemma_mul_nonnegative;
use vstd::math::{max, min};

use crate::decimal::DECIMAL_FRACTIONAL;

/// A time-bounded emission interval: `amount` reward units are emitted
/// uniformly over `[start_date, end_date]` (timestamps in seconds).
#[derive(Clone, Copy, Debug, PartialEq, Eq, Structural)]
pub struct DistributionWindow {
    /// When the emission begins.
    pub start_date: u64,
    /// When the emission ends.
    pub end_date: u64,
    /// The total reward quantity emitted across the window.
    pub amount: u128,
}

impl DistributionWindow {
    /// A window is valid when it ends strictly after it starts, so that its
    /// per-second emission rate is well defined.
    pub open spec fn wf(self) -> bool {
        self.end_date > self.start_date
    }

    /// Atomic units (18 decimal places) emitted per second:
    /// `amount * 10^18 / duration`, truncated.
    pub open spec fn rate_atomics(self) -> int {
        self.amount * DECIMAL_FRACTIONAL / (self.end_date - self.start_date)
    }

    /// Whether the window touches the accounting interval `[from, to]`.
    pub open spec fn active(self, from: int, to: int) -> bool {
        !(self.start_date > to || self.end_date < from)
    }

    /// Seconds of `[from, to]` that fall within the window.
    pub open spec fn overlap(self, from: int, to: int) -> int {
        min(self.end_date as int, to) - max(self.start_date as int, from)
    }

    /// Atomic units (18 decimal places) the window emits over the interval
    /// `[from, to]`: zero if the window misses the interval, else the
    /// overlap times the per-second rate. The emission stays rational at
    /// the rate's full precision; nothing here rounds to whole reward
    /// units.
    pub open spec fn emission(self, from: int, to: int) -> int {
        if self.active(from, to) {
            self.overlap(from, to) * self.rate_atomics()
        } else {
            0
        }
    }

    /// The intermediate products that evaluating `emission` takes stay
    /// within `u128`.
    pub open spec fn emission_fits(self, from: int, to: int) -> bool {
        self.active(from, to) ==> {
            &&& self.amount * DECIMAL_FRACTIONAL <= u128::MAX
            &&& self.overlap(from, to) * self.rate_atomics() <= u128::MAX
        }
    }
}

/// Every window of the schedule is valid.
pub open spec fn schedule_wf(s: Seq<DistributionWindow>) -> bool {
    forall|i: int| 0 <= i < s.len() ==> s[i].wf()
}

/// Atomic units the schedule emits over the interval `[from, to]`: the sum
/// of each window's emission, still at the rates' full precision.
pub open spec fn schedule_emission(s: Seq<DistributionWindow>, from: int, to: int) -> int
    decreases s.len(),
{
    if s.len() == 0 {
        0
    } else {
        schedule_emission(s.drop_last(), from, to) + s.last().emission(from, to)
    }
}

/// Evaluating the schedule's emission stays within `u128` at every step.
pub open spec fn schedule_emission_fits(s: Seq<DistributionWindow>, from: int, to: int) -> bool {
    &&& forall|i: int| 0 <= i < s.len() ==> s[i].emission_fits(from, to)
    &&& schedule_emission(s, from, to) <= u128::MAX
}

/// A valid window emits a non-negative amount over any well-ordered interval.
pub proof fn lemma_emission_nonneg(w: DistributionWindow, from: int, to: int)
    requires
        w.wf(),
        from <= to,
    ensures
        w.emission(from, to) >= 0,
{
    if w.active(from, to) {
        assert(w.overlap(from, to) >= 0);
        lemma_mul_nonnegative(w.amount as int, DECIMAL_FRACTIONAL as int);
        lemma_div_pos_is_pos(w.amount * DECIMAL_FRACTIONAL, w.end_date - w.start_date);
        lemma_mul_nonnegative(w.overlap(from, to), w.rate_atomics());
    }
}

/// A valid schedule emits a non-negative amount over any well-ordered interval.
pub proof fn lemma_schedule_emission_nonneg(s: Seq<DistributionWindow>, from: int, to: int)
    requires
        schedule_wf(s),
        from <= to,
    ensures
        schedule_emission(s, from, to) >= 0,
    decreases s.len(),
{
    if s.len() > 0 {
        lemma_schedule_emission_nonneg(s.drop_last(), from, to);
        lemma_emission_nonneg(s.last(), from, to);
    }
}

/// A prefix of a valid schedule emits no more than the whole schedule.
pub proof fn lemma_schedule_emission_prefix_le(
    s: Seq<DistributionWindow>,
    n: int,
    from: int,
    to: int,
)
    requires
        schedule_wf(s),
        from <= to,
        0 <= n <= s.len(),
    ensures
        schedule_emission(s.take(n), from, to) <= schedule_emission(s, from, to),
    decreases s.len() - n,
{
    if n == s.len() {
        assert(s.take(n) =~= s);
    } else {
        lemma_schedule_emission_prefix_le(s, n + 1, from, to);
        assert(s.take(n + 1).drop_last() =~= s.take(n));
        assert(s.take(n + 1).last() == s[n]);
        lemma_emission_nonneg(s[n], from, to);
    }
}

/// Over an empty interval every window emits nothing.
pub proof fn lemma_schedule_emission_empty_interval(s: Seq<DistributionWindow>, at: int)
    ensures
        schedule_emission(s, at, at) == 0,
    decreases s.len(),
{
    if s.len() > 0 {
        lemma_schedule_emission_empty_interval(s.drop_last(), at);
        let w = s.last();
        if w.active(at, at) {
            assert(w.overlap(at, at) == 0);
            assert(0int * w.rate_atomics() == 0) by (nonlinear_arith);
        }
    }
}

/// A window that has fully elapsed before the interval begins emits nothing
/// over it: a staker who joins only after a window's end earns nothing from
/// that window.
pub proof fn lemma_elapsed_window_emits_nothing(w: DistributionWindow, from: int, to: int)
    requires
        w.wf(),
        w.end_date <= from,
        from <= to,
    ensures
        w.emission(from, to) == 0,
{
    if w.active(from, to) {
        assert(w.overlap(from, to) == 0);
        assert(0int * w.rate_atomics() == 0) by (nonlinear_arith);
    }
}

/// Appending a window that has already fully elapsed adds nothing to the
/// emission over any later interval: a staker whose accounting starts only
/// after the window's end receives no reward attributable to it.
pub proof fn lemma_elapsed_window_adds_nothing(
    s: Seq<DistributionWindow>,
    w: DistributionWindow,
    from: int,
    to: int,
)
    requires
        w.wf(),
        w.end_date <= from,
        from <= to,
    ensures
        schedule_emission(s.push(w), from, to) == schedule_emission(s, from, to),
{
    assert(s.push(w).drop_last() =~= s);
    assert(s.push(w).last() == w);
    lemma_elapsed_window_emits_nothing(w, from, to);
}

} // verus!
