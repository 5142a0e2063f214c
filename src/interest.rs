use vstd::prelude::*;

use crate::constants::{SCALAR_7, SCALAR_9};
use crate::errors::PoolError;
use crate::fixed_math::{as_int, ceil_div, div_ceil, mul_ceil, mul_div_ceil, mul_div_floor, mul_floor};
use crate::reserve::{asset_from_b, asset_from_d, Reserve, ReserveConfig};

verus! {

/// Ledger blocks in a year: the curve's rates are yearly.
pub const BLOCKS_PER_YEAR: i128 = 6307200;

/// The smallest rate modifier, scaled by `SCALAR_9`.
pub const IR_MOD_MIN: i128 = 0_100_000_000;

/// The largest rate modifier, scaled by `SCALAR_9`.
pub const IR_MOD_MAX: i128 = 10_000_000_000;

/// `v` held within `[lo, hi]`.
pub open spec fn clamp(v: int, lo: int, hi: int) -> int {
    if v < lo {
        lo
    } else if v > hi {
        hi
    } else {
        v
    }
}

/// The reserve's utilization, scaled by `SCALAR_7`: the underlying owed over
/// the underlying supplied, rounded up; zero with nothing supplied.
pub open spec fn utilization_spec(r: Reserve) -> Option<int> {
    match (asset_from_d(r, r.data.d_supply as int), asset_from_b(r, r.data.b_supply as int)) {
        (Some(owed), Some(supplied)) => if supplied <= 0 {
            Some(0)
        } else {
            mul_div_ceil(owed, SCALAR_7 as int, supplied)
        },
        _ => None,
    }
}

/// The yearly rate of the curve at utilization `u` (in `[0, SCALAR_7]`), scaled
/// by `SCALAR_7`: `r_one` is the base rate, `r_two` the slope up to the target
/// utilization, `r_three` the slope from there to full utilization.
pub open spec fn curve_rate(c: ReserveConfig, u: int) -> Option<int> {
    let target = c.util as int;
    if u <= target {
        match mul_div_floor(c.r_two as int, u, target) {
            Some(x) => Some(c.r_one + x),
            None => None,
        }
    } else {
        match mul_div_floor(c.r_three as int, u - target, SCALAR_7 - target) {
            Some(x) => Some(c.r_one + c.r_two + x),
            None => None,
        }
    }
}

/// The curve's rate scaled by the reserve's rate modifier.
pub open spec fn modded_rate(r: Reserve, u: int) -> Option<int> {
    match curve_rate(r.config, u) {
        Some(rate) => mul_div_floor(rate, r.data.ir_mod as int, SCALAR_9 as int),
        None => None,
    }
}

/// The d-token rate after `elapsed` blocks at yearly rate `rate`, rounded up.
pub open spec fn next_d_rate(r: Reserve, rate: int, elapsed: int) -> Option<int> {
    match mul_div_floor(rate, elapsed * 100, BLOCKS_PER_YEAR as int) {
        Some(growth) => if SCALAR_9 + growth > i128::MAX {
            None
        } else {
            mul_div_ceil(r.data.d_rate as int, SCALAR_9 + growth, SCALAR_9 as int)
        },
        None => None,
    }
}

/// The b-token rate once the interest that the d-token supply accrued, moving
/// from its old rate to `d_rate`, is shared over the b-token supply, rounded down.
pub open spec fn next_b_rate(r: Reserve, d_rate: int) -> Option<int> {
    let moved = Reserve { data: crate::reserve::ReserveData { d_rate: d_rate as i128, ..r.data }, ..r };
    match (asset_from_d(moved, r.data.d_supply as int), asset_from_d(r, r.data.d_supply as int)) {
        (Some(after), Some(before)) => if r.data.b_supply <= 0 {
            Some(r.data.b_rate as int)
        } else if !crate::fixed_math::fits_i128(after - before) {
            None
        } else {
            match mul_div_floor(after - before, SCALAR_9 as int, r.data.b_supply as int) {
                Some(x) => if crate::fixed_math::fits_i128(r.data.b_rate + x) {
                    Some(r.data.b_rate + x)
                } else {
                    None
                },
                None => None,
            }
        },
        _ => None,
    }
}

/// The rate modifier after `elapsed` blocks at utilization `u`: it moves by the
/// gap to the target utilization times the blocks and the reactivity, within
/// `[IR_MOD_MIN, IR_MOD_MAX]`.
pub open spec fn next_ir_mod(r: Reserve, u: int, elapsed: int) -> Option<int> {
    match mul_div_floor((u - r.config.util) * elapsed, r.config.reactivity as int, SCALAR_7 as int) {
        Some(delta) => if crate::fixed_math::fits_i128(r.data.ir_mod + delta) {
            Some(clamp(r.data.ir_mod + delta, IR_MOD_MIN as int, IR_MOD_MAX as int))
        } else {
            None
        },
        None => None,
    }
}

/// The reserve accrued up to block `now`, `None` where a step overflows. A
/// reserve already accrued to `now` stays as it is.
pub open spec fn accrued(r: Reserve, now: u32) -> Option<Reserve> {
    if now <= r.data.last_block {
        Some(r)
    } else {
        let elapsed = now - r.data.last_block;
        match utilization_spec(r) {
            None => None,
            Some(u) => {
                let u1 = clamp(u, 0, SCALAR_7 as int);
                match modded_rate(r, u1) {
                    None => None,
                    Some(rate) => match next_d_rate(r, rate, elapsed) {
                        None => None,
                        Some(d_rate) => match next_b_rate(r, d_rate) {
                            None => None,
                            Some(b_rate) => match next_ir_mod(r, u1, elapsed) {
                                None => None,
                                Some(ir_mod) => Some(
                                    Reserve {
                                        data: crate::reserve::ReserveData {
                                            d_rate: d_rate as i128,
                                            b_rate: b_rate as i128,
                                            ir_mod: ir_mod as i128,
                                            last_block: now,
                                            ..r.data
                                        },
                                        ..r
                                    },
                                ),
                            },
                        },
                    },
                }
            },
        }
    }
}

/// Accrual never lowers the d-token rate of a reserve whose rate and rate
/// modifier are positive.
pub proof fn lemma_accrual_keeps_d_rate_rising(r: Reserve, now: u32)
    requires
        r.data.d_rate > 0,
        r.data.ir_mod >= 0,
        accrued(r, now) is Some,
    ensures
        accrued(r, now)->0.data.d_rate >= r.data.d_rate,
{
    if now > r.data.last_block {
        let elapsed = now - r.data.last_block;
        let u = utilization_spec(r)->0;
        let u1 = clamp(u, 0, SCALAR_7 as int);
        let target = r.config.util as int;
        let curve = curve_rate(r.config, u1)->0;
        if u1 <= target {
            let x = (r.config.r_two as int) * u1 / target;
            assert(x >= 0) by (nonlinear_arith)
                requires
                    x == (r.config.r_two as int) * u1 / target,
                    u1 >= 0,
                    target > 0,
                    r.config.r_two >= 0,
            ;
        } else {
            let x = (r.config.r_three as int) * (u1 - target) / (SCALAR_7 - target);
            assert(x >= 0) by (nonlinear_arith)
                requires
                    x == (r.config.r_three as int) * (u1 - target) / (SCALAR_7 - target),
                    u1 > target,
                    SCALAR_7 - target > 0,
                    r.config.r_three >= 0,
            ;
        }
        assert(curve >= 0);
        let rate = modded_rate(r, u1)->0;
        assert(rate >= 0) by (nonlinear_arith)
            requires
                rate == curve * (r.data.ir_mod as int) / (SCALAR_9 as int),
                curve >= 0,
                r.data.ir_mod >= 0,
        ;
        let growth = rate * (elapsed * 100) / (BLOCKS_PER_YEAR as int);
        assert(growth >= 0) by (nonlinear_arith)
            requires
                growth == rate * (elapsed * 100) / (BLOCKS_PER_YEAR as int),
                rate >= 0,
                elapsed > 0,
        ;
        let d = r.data.d_rate as int;
        let next = ceil_div(d * (SCALAR_9 + growth), SCALAR_9 as int);
        assert(next >= d) by (nonlinear_arith)
            requires
                next == (d * (SCALAR_9 + growth) + SCALAR_9 - 1) / (SCALAR_9 as int),
                d > 0,
                growth >= 0,
        ;
    }
}

impl Reserve {
    /// The reserve's utilization, scaled by `SCALAR_7`; see `utilization_spec`.
    pub fn utilization(&self) -> (r: Option<i128>)
        ensures
            as_int(r) == utilization_spec(*self),
    {
        match (self.to_asset_from_d_token(self.data.d_supply), self.to_asset_from_b_token(self.data.b_supply)) {
            (Some(owed), Some(supplied)) => if supplied <= 0 {
                Some(0)
            } else {
                div_ceil(owed, supplied, SCALAR_7)
            },
            _ => None,
        }
    }

    /// The yearly rate the reserve's curve gives at `util`, before the rate modifier.
    pub fn curve_rate(&self, util: i128) -> (r: Option<i128>)
        requires
            0 <= util <= SCALAR_7,
        ensures
            as_int(r) == curve_rate(self.config, util as int),
    {
        let target = self.config.util as i128;
        if util <= target {
            match mul_floor(self.config.r_two as i128, util, target) {
                Some(x) => {
                    let ghost (t, b) = (target as int, self.config.r_two as int);
                    assert(0 <= x <= b) by (nonlinear_arith)
                        requires
                            x == b * util / t,
                            t > 0,
                            0 <= util <= t,
                            b >= 0,
                    ;
                    Some(self.config.r_one as i128 + x)
                },
                None => None,
            }
        } else {
            match mul_floor(self.config.r_three as i128, util - target, SCALAR_7 - target) {
                Some(x) => {
                    let ghost (g, w, b) = ((util - target) as int, (SCALAR_7 - target) as int, self.config.r_three as int);
                    assert(0 <= x <= b) by (nonlinear_arith)
                        requires
                            x == b * g / w,
                            0 < g <= w,
                            b >= 0,
                    ;
                    Some(self.config.r_one as i128 + self.config.r_two as i128 + x)
                },
                None => None,
            }
        }
    }

    /// Compounds the reserve's interest up to block `now`: the d-token rate grows
    /// by the curve's rate (times the rate modifier) over the blocks elapsed, the
    /// interest this adds to the debt is shared over the b-tokens, and the rate
    /// modifier drifts toward the target utilization.
    ///
    /// Fails with `ArithmeticOverflow`, changing nothing, where a step overflows.
    pub fn accrue(&mut self, now: u32) -> (r: Result<(), PoolError>)
        ensures
            match accrued(*old(self), now) {
                Some(n) => r == Ok::<(), PoolError>(()) && *final(self) == n,
                None => r == Err::<(), PoolError>(PoolError::ArithmeticOverflow) && *final(self) == *old(self),
            },
    {
        if now <= self.data.last_block {
            return Ok(());
        }
        let elapsed = (now - self.data.last_block) as i128;
        let util = match self.utilization() {
            Some(u) => u,
            None => {
                return Err(PoolError::ArithmeticOverflow);
            },
        };
        let util = if util < 0 {
            0
        } else if util > SCALAR_7 {
            SCALAR_7
        } else {
            util
        };
        let rate = match self.curve_rate(util) {
            Some(c) => mul_floor(c, self.data.ir_mod, SCALAR_9),
            None => None,
        };
        let rate = match rate {
            Some(v) => v,
            None => {
                return Err(PoolError::ArithmeticOverflow);
            },
        };
        let d_rate = match mul_floor(rate, elapsed * 100, BLOCKS_PER_YEAR) {
            Some(growth) => match SCALAR_9.checked_add(growth) {
                Some(factor) => mul_ceil(self.data.d_rate, factor, SCALAR_9),
                None => None,
            },
            None => None,
        };
        let d_rate = match d_rate {
            Some(v) => v,
            None => {
                return Err(PoolError::ArithmeticOverflow);
            },
        };
        let mut moved = *self;
        moved.data.d_rate = d_rate;
        let b_rate = match (moved.to_asset_from_d_token(self.data.d_supply), self.to_asset_from_d_token(self.data.d_supply)) {
            (Some(after), Some(before)) => if self.data.b_supply <= 0 {
                Some(self.data.b_rate)
            } else {
                match after.checked_sub(before) {
                    Some(interest) => match mul_floor(interest, SCALAR_9, self.data.b_supply) {
                        Some(x) => self.data.b_rate.checked_add(x),
                        None => None,
                    },
                    None => None,
                }
            },
            _ => None,
        };
        let b_rate = match b_rate {
            Some(v) => v,
            None => {
                return Err(PoolError::ArithmeticOverflow);
            },
        };
        let gap = util - self.config.util as i128;
        assert(-0x1_0000_0000 <= gap <= SCALAR_7);
        assert(-0x1_0000_0000 * 0x1_0000_0000 <= gap * elapsed <= SCALAR_7 * 0x1_0000_0000) by (nonlinear_arith)
            requires
                -0x1_0000_0000 <= gap <= SCALAR_7,
                0 <= elapsed <= 0x1_0000_0000,
        ;
        let ir_mod = match mul_floor(gap * elapsed, self.config.reactivity as i128, SCALAR_7) {
            Some(delta) => match self.data.ir_mod.checked_add(delta) {
                Some(m) => if m < IR_MOD_MIN {
                    Some(IR_MOD_MIN)
                } else if m > IR_MOD_MAX {
                    Some(IR_MOD_MAX)
                } else {
                    Some(m)
                },
                None => None,
            },
            None => None,
        };
        let ir_mod = match ir_mod {
            Some(v) => v,
            None => {
                return Err(PoolError::ArithmeticOverflow);
            },
        };
        self.data.d_rate = d_rate;
        self.data.b_rate = b_rate;
        self.data.ir_mod = ir_mod;
        self.data.last_block = now;
        Ok(())
    }
}

} // verus!
