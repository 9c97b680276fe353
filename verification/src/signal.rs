//! Indicators over an ordered series of prices.
//!
//! Prices are integers in a fixed minor unit that the caller chooses (cents,
//! hundredths of a cent, ...). Quotients are kept exact, as a [`Ratio`], so
//! that no indicator depends on a rounding rule.

use vstd::prelude::*;

verus! {

/// A price in the caller's minor unit.
pub type Price = i64;

/// An exact quotient `num / den`.
#[derive(Clone, Copy, Debug, PartialEq, Eq, Structural)]
pub struct Ratio {
    pub num: i128,
    pub den: i128,
}

impl Ratio {
    /// A ratio stands for a number only when its denominator is not zero.
    pub open spec fn wf(&self) -> bool {
        self.den != 0
    }

    /// The ratio `0 / 1`.
    pub fn zero() -> (r: Ratio)
        ensures
            r.num == 0,
            r.den == 1,
    {
        Ratio { num: 0, den: 1 }
    }
}

/// The sum of all prices of a series.
pub open spec fn total(s: Seq<Price>) -> int
    decreases s.len(),
{
    if s.len() == 0 {
        0
    } else {
        total(s.drop_last()) + s.last()
    }
}

/// `m` occurs in `s` and no element of `s` is above it.
pub open spec fn is_max_of(m: Price, s: Seq<Price>) -> bool {
    &&& s.contains(m)
    &&& forall|i: int| 0 <= i < s.len() ==> s[i] <= m
}

/// `m` occurs in `s` and no element of `s` is below it.
pub open spec fn is_min_of(m: Price, s: Seq<Price>) -> bool {
    &&& s.contains(m)
    &&& forall|i: int| 0 <= i < s.len() ==> s[i] >= m
}

/// The divisor of the relative difference: the first price, or one where the
/// first price is zero.
pub open spec fn base_of(first: Price) -> int {
    if first == 0 {
        1
    } else {
        first as int
    }
}

/// How many contiguous windows of `window` elements a series of `len`
/// elements has.
pub open spec fn window_count(len: nat, window: nat) -> nat {
    if window <= len {
        (len - window + 1) as nat
    } else {
        0
    }
}

/// A sum of `s.len()` prices is at most `s.len()` times the largest price
/// away from zero.
pub proof fn lemma_total_bounds(s: Seq<Price>)
    ensures
        -0x8000_0000_0000_0000 * s.len() <= total(s) <= 0x7fff_ffff_ffff_ffff * s.len(),
    decreases s.len(),
{
    if s.len() > 0 {
        lemma_total_bounds(s.drop_last());
    }
}

/// The absolute and the relative difference between the end and the
/// beginning of a series; the relative one is taken against the beginning.
pub struct PriceDifference {}

impl PriceDifference {
    /// Returns `(last - first, (last - first) / first)`, with the divisor one
    /// where `first` is zero, and nothing for an empty series.
    pub fn calculate(&self, series: &[Price]) -> (r: Option<(i128, Ratio)>)
        ensures
            r.is_none() <==> series@.len() == 0,
            r matches Some((abs_diff, rel_diff)) ==> {
                &&& abs_diff == series@.last() - series@.first()
                &&& rel_diff.num == abs_diff
                &&& rel_diff.den == base_of(series@.first())
                &&& rel_diff.wf()
            },
    {
        if series.len() == 0 {
            return None;
        }
        let first: Price = series[0];
        let last: Price = series[series.len() - 1];
        let abs_diff: i128 = last as i128 - first as i128;
        let base: i128 = if first == 0 {
            1
        } else {
            first as i128
        };
        Some((abs_diff, Ratio { num: abs_diff, den: base }))
    }
}

/// Simple moving averages over every contiguous window of a fixed size.
pub struct WindowedSMA {
    pub window_size: usize,
}

impl WindowedSMA {
    /// Returns one average per window, oldest window first. There is no
    /// result for an empty series or a window of fewer than two elements; a
    /// window longer than the series gives an empty result.
    pub fn calculate(&self, series: &[Price]) -> (r: Option<Vec<Ratio>>)
        ensures
            r.is_none() <==> (series@.len() == 0 || self.window_size <= 1),
            r matches Some(averages) ==> {
                &&& averages@.len() == window_count(series@.len(), self.window_size as nat)
                &&& forall|i: int|
                    0 <= i < averages@.len() ==> {
                        &&& (#[trigger] averages@[i]).num == total(
                            series@.subrange(i, i + self.window_size),
                        )
                        &&& averages@[i].den == self.window_size
                        &&& averages@[i].wf()
                    }
            },
    {
        let n: usize = series.len();
        let w: usize = self.window_size;
        if n == 0 || w <= 1 {
            return None;
        }
        let mut averages: Vec<Ratio> = Vec::new();
        if w > n {
            return Some(averages);
        }
        let count: usize = n - w + 1;
        let mut i: usize = 0;
        while i < count
            invariant
                n == series@.len(),
                w == self.window_size,
                2 <= w <= n,
                count == n - w + 1,
                i <= count,
                averages@.len() == i,
                forall|k: int|
                    0 <= k < i ==> {
                        &&& (#[trigger] averages@[k]).num == total(series@.subrange(k, k + w))
                        &&& averages@[k].den == w
                    },
            decreases count - i,
        {
            let mut sum: i128 = 0;
            let mut j: usize = 0;
            while j < w
                invariant
                    n == series@.len(),
                    i + w <= n,
                    j <= w,
                    sum == total(series@.subrange(i as int, i + j)),
                decreases w - j,
            {
                proof {
                    lemma_total_bounds(series@.subrange(i as int, i + j));
                    assert(series@.subrange(i as int, i + j + 1).drop_last() =~= series@.subrange(
                        i as int,
                        i + j,
                    ));
                }
                sum = sum + series[i + j] as i128;
                j += 1;
            }
            averages.push(Ratio { num: sum, den: w as i128 });
            i += 1;
        }
        Some(averages)
    }
}

/// Finds the maximum of a series.
pub struct MaxPrice {}

impl MaxPrice {
    /// Returns the largest price of the series, and nothing for an empty one.
    pub fn calculate(&self, series: &[Price]) -> (r: Option<Price>)
        ensures
            r.is_none() <==> series@.len() == 0,
            r matches Some(m) ==> is_max_of(m, series@),
    {
        if series.len() == 0 {
            return None;
        }
        let mut best: Price = series[0];
        let ghost mut at: int = 0;
        let mut i: usize = 1;
        while i < series.len()
            invariant
                1 <= i <= series@.len(),
                0 <= at < i,
                series@[at] == best,
                forall|k: int| 0 <= k < i ==> series@[k] <= best,
            decreases series@.len() - i,
        {
            if series[i] > best {
                best = series[i];
                proof {
                    at = i as int;
                }
            }
            i += 1;
        }
        assert(series@[at] == best);
        Some(best)
    }
}

/// Finds the minimum of a series.
pub struct MinPrice {}

impl MinPrice {
    /// Returns the smallest price of the series, and nothing for an empty one.
    pub fn calculate(&self, series: &[Price]) -> (r: Option<Price>)
        ensures
            r.is_none() <==> series@.len() == 0,
            r matches Some(m) ==> is_min_of(m, series@),
    {
        if series.len() == 0 {
            return None;
        }
        let mut best: Price = series[0];
        let ghost mut at: int = 0;
        let mut i: usize = 1;
        while i < series.len()
            invariant
                1 <= i <= series@.len(),
                0 <= at < i,
                series@[at] == best,
                forall|k: int| 0 <= k < i ==> series@[k] >= best,
            decreases series@.len() - i,
        {
            if series[i] < best {
                best = series[i];
                proof {
                    at = i as int;
                }
            }
            i += 1;
        }
        assert(series@[at] == best);
        Some(best)
    }
}

} // verus!
