use vstd::prelude::*;

use crate::constants::{SCALAR_7, SCALAR_9};
use crate::fixed_math::{as_int, div_ceil, div_floor, mul_ceil, mul_div_ceil, mul_div_floor, mul_floor};
use crate::pool::Address;

verus! {

/// The fixed configuration of a reserve.
#[derive(Clone, Copy, Debug, PartialEq, Eq, Structural)]
pub struct ReserveConfig {
    /// The supply (b-) token of the reserve.
    pub b_token: Address,
    /// The debt (d-) token of the reserve.
    pub d_token: Address,
    pub decimals: u32,
    /// Share of a supplied amount that counts as collateral, scaled by `SCALAR_7`.
    pub c_factor: u32,
    /// Share of a liability's weight, scaled by `SCALAR_7`; liabilities are divided by it.
    pub l_factor: u32,
    /// Target utilization, scaled by `SCALAR_7`.
    pub util: u32,
    pub r_one: u32,
    pub r_two: u32,
    pub r_three: u32,
    pub reactivity: u32,
    /// The position of the reserve in the pool's list and in a `ReserveUsage`.
    pub index: u32,
}

/// The changing state of a reserve.
#[derive(Clone, Copy, Debug, PartialEq, Eq, Structural)]
pub struct ReserveData {
    /// Underlying per b-token, scaled by `SCALAR_9`.
    pub b_rate: i128,
    /// Underlying per d-token, scaled by `SCALAR_9`.
    pub d_rate: i128,
    pub ir_mod: i128,
    /// Total b-tokens.
    pub b_supply: i128,
    /// Total d-tokens.
    pub d_supply: i128,
    pub last_block: u32,
}

/// One supported asset of the pool.
#[derive(Clone, Copy, Debug, PartialEq, Eq, Structural)]
pub struct Reserve {
    pub asset: Address,
    pub config: ReserveConfig,
    pub data: ReserveData,
}

/// Underlying of `b` b-tokens at rate `b_rate`, rounded down.
pub open spec fn asset_from_b(r: Reserve, b: int) -> Option<int> {
    mul_div_floor(b, r.data.b_rate as int, SCALAR_9 as int)
}

/// Underlying of `d` d-tokens at rate `d_rate`, rounded up.
pub open spec fn asset_from_d(r: Reserve, d: int) -> Option<int> {
    mul_div_ceil(d, r.data.d_rate as int, SCALAR_9 as int)
}

/// Collateral value in underlying of `b` b-tokens: the underlying times `c_factor`, rounded down.
pub open spec fn effective_from_b(r: Reserve, b: int) -> Option<int> {
    match asset_from_b(r, b) {
        Some(a) => mul_div_floor(a, r.config.c_factor as int, SCALAR_7 as int),
        None => None,
    }
}

/// Liability weight in underlying of `d` d-tokens: the underlying divided by `l_factor`, rounded down.
pub open spec fn effective_from_d(r: Reserve, d: int) -> Option<int> {
    match asset_from_d(r, d) {
        Some(a) => mul_div_floor(a, SCALAR_7 as int, r.config.l_factor as int),
        None => None,
    }
}

/// d-tokens worth `a` underlying, rounded down.
pub open spec fn d_from_asset(r: Reserve, a: int) -> Option<int> {
    mul_div_floor(a, SCALAR_9 as int, r.data.d_rate as int)
}

/// b-tokens worth `a` underlying, rounded up.
pub open spec fn b_from_asset(r: Reserve, a: int) -> Option<int> {
    mul_div_ceil(a, SCALAR_9 as int, r.data.b_rate as int)
}

impl Reserve {
    /// Rates and the liability factor are positive.
    pub open spec fn wf(&self) -> bool {
        self.data.b_rate > 0 && self.data.d_rate > 0 && self.config.l_factor > 0
    }

    /// Underlying of `b_tokens`, rounded down (in the protocol's favour).
    pub fn to_asset_from_b_token(&self, b_tokens: i128) -> (r: Option<i128>)
        ensures
            as_int(r) == asset_from_b(*self, b_tokens as int),
    {
        mul_floor(b_tokens, self.data.b_rate, SCALAR_9)
    }

    /// Underlying owed for `d_tokens`, rounded up (in the protocol's favour).
    pub fn to_asset_from_d_token(&self, d_tokens: i128) -> (r: Option<i128>)
        ensures
            as_int(r) == asset_from_d(*self, d_tokens as int),
    {
        mul_ceil(d_tokens, self.data.d_rate, SCALAR_9)
    }

    /// Collateral value of `b_tokens` in underlying.
    pub fn to_effective_asset_from_b_token(&self, b_tokens: i128) -> (r: Option<i128>)
        ensures
            as_int(r) == effective_from_b(*self, b_tokens as int),
    {
        match self.to_asset_from_b_token(b_tokens) {
            Some(assets) => mul_floor(assets, self.config.c_factor as i128, SCALAR_7),
            None => None,
        }
    }

    /// Liability weight of `d_tokens` in underlying.
    pub fn to_effective_asset_from_d_token(&self, d_tokens: i128) -> (r: Option<i128>)
        ensures
            as_int(r) == effective_from_d(*self, d_tokens as int),
    {
        match self.to_asset_from_d_token(d_tokens) {
            Some(assets) => div_floor(assets, self.config.l_factor as i128, SCALAR_7),
            None => None,
        }
    }

    /// d-tokens that `amount` underlying repays, rounded down (in the protocol's favour).
    pub fn to_d_token_from_asset(&self, amount: i128) -> (r: Option<i128>)
        requires
            self.wf(),
        ensures
            as_int(r) == d_from_asset(*self, amount as int),
    {
        div_floor(amount, self.data.d_rate, SCALAR_9)
    }

    /// b-tokens that `amount` underlying is worth, rounded up (in the protocol's favour).
    pub fn to_b_token_from_asset(&self, amount: i128) -> (r: Option<i128>)
        requires
            self.wf(),
        ensures
            as_int(r) == b_from_asset(*self, amount as int),
    {
        div_ceil(amount, self.data.b_rate, SCALAR_9)
    }
}

} // verus!
