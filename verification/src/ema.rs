//! Exponential moving average used to smooth per-venue fair sizes.
//!
//! The smoothing ratio is a number of thousandths. The average is absent
//! until the first observation; afterwards each observation `v` moves the
//! average from `cur` to `(ratio * v + (1000 - ratio) * cur) / 1000`,
//! rounding down. The average never exceeds the largest value folded in.

use vstd::prelude::*;

verus! {

/// The smoothed value after folding observation `v` into average `cur`.
pub open spec fn ema_step(cur: int, v: int, ratio: int) -> int {
    (ratio * v + (1000 - ratio) * cur) / 1000
}

/// Exponential moving average with a fixed ratio in thousandths.
#[derive(Clone, Copy, Debug)]
pub struct Ema {
    ratio: u64,
    value: Option<u64>,
}

impl Ema {
    /// The smoothing ratio in thousandths.
    pub closed spec fn ratio_spec(&self) -> u64 {
        self.ratio
    }

    /// The current average, absent until the first observation.
    pub closed spec fn value_spec(&self) -> Option<u64> {
        self.value
    }

    /// The ratio never exceeds one whole (1000 thousandths).
    pub open spec fn wf(&self) -> bool {
        self.ratio_spec() <= 1000
    }

    /// A fresh average with no observations.
    pub fn new(ratio: u64) -> (r: Ema)
        requires
            ratio <= 1000,
        ensures
            r.wf(),
            r.ratio_spec() == ratio,
            r.value_spec() is None,
    {
        Ema { ratio, value: None }
    }

    /// The current average.
    pub fn get_value(&self) -> (r: Option<u64>)
        ensures
            r == self.value_spec(),
    {
        self.value
    }

    /// Fold one observation in. The first observation is taken as-is; later
    /// ones move the average by `ratio` thousandths toward the observation.
    /// The average never overshoots the larger of its inputs.
    pub fn add_value(&mut self, v: u64)
        requires
            old(self).wf(),
        ensures
            final(self).wf(),
            final(self).ratio_spec() == old(self).ratio_spec(),
            match (old(self).value_spec(), final(self).value_spec()) {
                (None, Some(x)) => x == v,
                (Some(cur), Some(x)) => x as int == ema_step(
                    cur as int,
                    v as int,
                    old(self).ratio_spec() as int,
                ) && (x <= cur || x <= v),
                _ => false,
            },
    {
        match self.value {
            None => {
                self.value = Some(v);
            },
            Some(cur) => {
                let r = self.ratio;
                proof {
                    assert((r as int) * (v as int) <= 1000 * 0xFFFF_FFFF_FFFF_FFFFint
                        && 0 <= (r as int) * (v as int)) by (nonlinear_arith)
                        requires
                            r <= 1000,
                            0 <= v <= 0xFFFF_FFFF_FFFF_FFFFint,
                    ;
                    assert(((1000 - r as int)) * (cur as int) <= 1000 * 0xFFFF_FFFF_FFFF_FFFFint
                        && 0 <= ((1000 - r as int)) * (cur as int)) by (nonlinear_arith)
                        requires
                            r <= 1000,
                            0 <= cur <= 0xFFFF_FFFF_FFFF_FFFFint,
                    ;
                }
                let num: u128 = (r as u128) * (v as u128) + ((1000 - r) as u128) * (cur as u128);
                proof {
                    let m: int = if cur <= v {
                        v as int
                    } else {
                        cur as int
                    };
                    assert(num as int <= 1000 * m) by (nonlinear_arith)
                        requires
                            r <= 1000,
                            num as int == (r as int) * (v as int) + (1000 - r as int) * (
                            cur as int),
                            v <= m,
                            cur <= m,
                            0 <= m,
                    ;
                    assert((num as int) / 1000 <= m) by (nonlinear_arith)
                        requires
                            num as int <= 1000 * m,
                            0 <= num as int,
                    ;
                }
                let x: u64 = (num / 1000) as u64;
                self.value = Some(x);
            },
        }
    }
}

} // verus!
