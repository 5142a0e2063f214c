use vstd::prelude::*;

use crate::constants::SCALAR_7;
use crate::errors::PoolError;
use crate::fixed_math::{as_int, mul_div_floor, mul_floor};
use crate::pool::{Address, Pool, Positions};
use crate::reserve::{effective_from_b, effective_from_d, Reserve};
use crate::reserve_usage::lemma_empty_usage_inactive;

verus! {

/// A user's effective collateral and liability, in the base asset.
#[derive(Clone, Copy, Debug, PartialEq, Eq, Structural)]
pub struct UserData {
    /// The user's effective collateral balance denominated in the base asset.
    pub collateral_base: i128,
    /// The user's effective liability balance denominated in the base asset.
    pub liability_base: i128,
}

/// A change the user is about to make to one reserve, valued as if it were made.
#[derive(Clone, Copy, Debug, PartialEq, Eq, Structural)]
pub struct UserAction {
    /// The underlying asset of the reserve the change is made to.
    pub asset: Address,
    /// b-tokens added (negative: removed).
    pub b_token_delta: i128,
    /// d-tokens added (negative: removed).
    pub d_token_delta: i128,
}

/// `a + b`, or `None` where the sum leaves `i128`.
pub open spec fn add_checked(a: int, b: int) -> Option<int> {
    if i128::MIN <= a + b <= i128::MAX {
        Some(a + b)
    } else {
        None
    }
}

/// Base-unit collateral value of `b` b-tokens at `price`.
pub open spec fn collateral_value(r: Reserve, b: int, price: int) -> Option<int> {
    match effective_from_b(r, b) {
        Some(e) => mul_div_floor(e, price, SCALAR_7 as int),
        None => None,
    }
}

/// Base-unit liability value of `d` d-tokens at `price`.
pub open spec fn liability_value(r: Reserve, d: int, price: int) -> Option<int> {
    match effective_from_d(r, d) {
        Some(e) => mul_div_floor(e, price, SCALAR_7 as int),
        None => None,
    }
}

/// Sum of two optional values, `None` if either is or the sum overflows.
pub open spec fn add_opt(a: Option<int>, b: Option<int>) -> Option<int> {
    match (a, b) {
        (Some(x), Some(y)) => add_checked(x, y),
        _ => None,
    }
}

/// Reserve `i`'s part of the collateral: the held b-tokens if the supply flag is
/// set and they are not zero (a stale flag on an empty balance adds nothing),
/// plus the action's b-tokens if the action is on this reserve.
pub open spec fn collateral_part(pool: Pool, pos: Positions, action: UserAction, i: int) -> Option<int> {
    let r = pool.reserves@[i];
    let price = pool.prices@[i] as int;
    let held = if pos.config.is_supply_spec(i as u32) && pos.collateral_of(i) != 0 {
        collateral_value(r, pos.collateral_of(i), price)
    } else {
        Some(0)
    };
    let added = if r.asset == action.asset && action.b_token_delta != 0 {
        collateral_value(r, action.b_token_delta as int, price)
    } else {
        Some(0)
    };
    add_opt(held, added)
}

/// Reserve `i`'s part of the liability: the held d-tokens if the liability flag
/// is set and they are not zero (a stale flag on an empty balance adds nothing),
/// plus the action's d-tokens if the action is on this reserve.
pub open spec fn liability_part(pool: Pool, pos: Positions, action: UserAction, i: int) -> Option<int> {
    let r = pool.reserves@[i];
    let price = pool.prices@[i] as int;
    let held = if pos.config.is_liability_spec(i as u32) && pos.liability_of(i) != 0 {
        liability_value(r, pos.liability_of(i), price)
    } else {
        Some(0)
    };
    let added = if r.asset == action.asset && action.d_token_delta != 0 {
        liability_value(r, action.d_token_delta as int, price)
    } else {
        Some(0)
    };
    add_opt(held, added)
}

/// The (collateral, liability) totals over reserves `0..n`, or `None` where a
/// step overflows.
pub open spec fn position_upto(pool: Pool, pos: Positions, action: UserAction, n: int) -> Option<(int, int)>
    decreases n,
{
    if n <= 0 {
        Some((0, 0))
    } else {
        match position_upto(pool, pos, action, n - 1) {
            Some((c, l)) => match (
                add_opt(Some(c), collateral_part(pool, pos, action, n - 1)),
                add_opt(Some(l), liability_part(pool, pos, action, n - 1)),
            ) {
                (Some(c2), Some(l2)) => Some((c2, l2)),
                _ => None,
            },
            None => None,
        }
    }
}

/// The user's (collateral, liability) in the base asset over all reserves.
pub open spec fn position_of(pool: Pool, pos: Positions, action: UserAction) -> Option<(int, int)> {
    position_upto(pool, pos, action, pool.reserves@.len() as int)
}

/// An action that changes nothing.
pub open spec fn no_action() -> UserAction {
    UserAction { asset: 0, b_token_delta: 0, d_token_delta: 0 }
}

/// The (collateral, liability) of `user` as the pool stands, `None` on overflow;
/// a user without positions has neither.
pub open spec fn user_position(pool: Pool, user: Address) -> Option<(int, int)> {
    if pool.positions@.contains_key(user) {
        position_of(pool, pool.positions@[user], no_action())
    } else {
        Some((0, 0))
    }
}

/// A user with no usage flag set, valued with an action that changes nothing,
/// has zero collateral and zero liability, whatever balances it holds.
pub proof fn lemma_inactive_user_values_zero(pool: Pool, pos: Positions, action: UserAction)
    requires
        pool.wf(),
        pos.config.config == 0,
        action.b_token_delta == 0,
        action.d_token_delta == 0,
    ensures
        position_of(pool, pos, action) == Some((0int, 0int)),
{
    lemma_inactive_prefix_zero(pool, pos, action, pool.reserves@.len() as int);
}

proof fn lemma_inactive_prefix_zero(pool: Pool, pos: Positions, action: UserAction, n: int)
    requires
        pool.wf(),
        pos.config.config == 0,
        action.b_token_delta == 0,
        action.d_token_delta == 0,
        n <= pool.reserves@.len(),
    ensures
        position_upto(pool, pos, action, n) == Some((0int, 0int)),
    decreases n,
{
    if n > 0 {
        lemma_inactive_prefix_zero(pool, pos, action, n - 1);
        lemma_empty_usage_inactive((n - 1) as u32);
    }
}

/// A usage flag on a reserve where the balance is zero changes nothing: two
/// users holding the same balances, whose flags differ only on such reserves,
/// are valued alike.
pub proof fn lemma_stale_flags_value_alike(pool: Pool, a: Positions, b: Positions, action: UserAction)
    requires
        a.collateral@ == b.collateral@,
        a.liabilities@ == b.liabilities@,
        forall|i: int| 0 <= i < pool.reserves@.len() ==> (a.config.is_supply_spec(i as u32) == b.config.is_supply_spec(
            i as u32,
        ) || a.collateral_of(i) == 0) && (a.config.is_liability_spec(i as u32) == b.config.is_liability_spec(i as u32)
            || a.liability_of(i) == 0),
    ensures
        position_of(pool, a, action) == position_of(pool, b, action),
{
    lemma_stale_flags_prefix(pool, a, b, action, pool.reserves@.len() as int);
}

proof fn lemma_stale_flags_prefix(pool: Pool, a: Positions, b: Positions, action: UserAction, n: int)
    requires
        n <= pool.reserves@.len(),
        a.collateral@ == b.collateral@,
        a.liabilities@ == b.liabilities@,
        forall|i: int| 0 <= i < pool.reserves@.len() ==> (a.config.is_supply_spec(i as u32) == b.config.is_supply_spec(
            i as u32,
        ) || a.collateral_of(i) == 0) && (a.config.is_liability_spec(i as u32) == b.config.is_liability_spec(i as u32)
            || a.liability_of(i) == 0),
    ensures
        position_upto(pool, a, action, n) == position_upto(pool, b, action, n),
    decreases n,
{
    if n > 0 {
        lemma_stale_flags_prefix(pool, a, b, action, n - 1);
        assert(collateral_part(pool, a, action, n - 1) == collateral_part(pool, b, action, n - 1));
        assert(liability_part(pool, a, action, n - 1) == liability_part(pool, b, action, n - 1));
    }
}

/// Once a prefix overflows, every longer prefix does.
proof fn lemma_overflow_persists(pool: Pool, pos: Positions, action: UserAction, k: int, m: int)
    requires
        0 <= k <= m,
        position_upto(pool, pos, action, k) is None,
    ensures
        position_upto(pool, pos, action, m) is None,
    decreases m - k,
{
    if k < m {
        lemma_overflow_persists(pool, pos, action, k, m - 1);
    }
}

pub(crate) fn value_collateral(r: &Reserve, b_tokens: i128, price: i128) -> (v: Option<i128>)
    ensures
        as_int(v) == collateral_value(*r, b_tokens as int, price as int),
{
    match r.to_effective_asset_from_b_token(b_tokens) {
        Some(e) => mul_floor(e, price, SCALAR_7),
        None => None,
    }
}

fn value_liability(r: &Reserve, d_tokens: i128, price: i128) -> (v: Option<i128>)
    ensures
        as_int(v) == liability_value(*r, d_tokens as int, price as int),
{
    match r.to_effective_asset_from_d_token(d_tokens) {
        Some(e) => mul_floor(e, price, SCALAR_7),
        None => None,
    }
}

fn add_both(a: Option<i128>, b: Option<i128>) -> (r: Option<i128>)
    ensures
        as_int(r) == add_opt(as_int(a), as_int(b)),
{
    match (a, b) {
        (Some(x), Some(y)) => x.checked_add(y),
        _ => None,
    }
}

impl UserAction {
    /// An action that changes nothing.
    pub fn none() -> (r: UserAction)
        ensures
            r == no_action(),
    {
        UserAction { asset: 0, b_token_delta: 0, d_token_delta: 0 }
    }
}

impl UserData {
    /// Whether the collateral covers the liability.
    pub fn is_healthy(&self) -> (r: bool)
        ensures
            r == (self.collateral_base >= self.liability_base),
    {
        self.collateral_base >= self.liability_base
    }

    /// Values a user's positions across every reserve of the pool, with
    /// `action` applied to its reserve as if it had been made.
    ///
    /// Reserves with neither flag set, other than the action's, add nothing.
    /// Fails with `ArithmeticOverflow` where a fixed-point step leaves `i128`.
    pub fn load(pool: &Pool, positions: &Positions, action: &UserAction) -> (r: Result<UserData, PoolError>)
        requires
            pool.wf(),
        ensures
            match position_of(*pool, *positions, *action) {
                Some((c, l)) => r == Ok::<UserData, PoolError>(
                    UserData { collateral_base: c as i128, liability_base: l as i128 },
                ),
                None => r == Err::<UserData, PoolError>(PoolError::ArithmeticOverflow),
            },
            r matches Ok(d) ==> position_of(*pool, *positions, *action) == Some(
                (d.collateral_base as int, d.liability_base as int),
            ),
    {
        let n = pool.reserves.len();
        let mut collateral_base: i128 = 0;
        let mut liability_base: i128 = 0;
        let mut i: usize = 0;
        while i < n
            invariant
                pool.wf(),
                n == pool.reserves@.len(),
                i <= n,
                position_upto(*pool, *positions, *action, i as int) == Some(
                    (collateral_base as int, liability_base as int),
                ),
            decreases n - i,
        {
            let reserve = &pool.reserves[i];
            let price = pool.prices[i];
            let index = i as u32;
            let balance_c = positions.get_collateral(index);
            let balance_l = positions.get_liabilities(index);
            let held_c = if positions.config.is_collateral(index) && balance_c != 0 {
                value_collateral(reserve, balance_c, price)
            } else {
                Some(0)
            };
            let held_l = if positions.config.is_liability(index) && balance_l != 0 {
                value_liability(reserve, balance_l, price)
            } else {
                Some(0)
            };
            let matched = reserve.asset == action.asset;
            let added_c = if matched && action.b_token_delta != 0 {
                value_collateral(reserve, action.b_token_delta, price)
            } else {
                Some(0)
            };
            let added_l = if matched && action.d_token_delta != 0 {
                value_liability(reserve, action.d_token_delta, price)
            } else {
                Some(0)
            };
            let part_c = add_both(held_c, added_c);
            let part_l = add_both(held_l, added_l);
            assert(as_int(part_c) == collateral_part(*pool, *positions, *action, i as int));
            assert(as_int(part_l) == liability_part(*pool, *positions, *action, i as int));
            let next_c = add_both(Some(collateral_base), part_c);
            let next_l = add_both(Some(liability_base), part_l);
            match (next_c, next_l) {
                (Some(c), Some(l)) => {
                    collateral_base = c;
                    liability_base = l;
                },
                _ => {
                    proof {
                        lemma_overflow_persists(*pool, *positions, *action, i as int + 1, n as int);
                    }
                    return Err(PoolError::ArithmeticOverflow);
                },
            }
            i = i + 1;
        }
        Ok(UserData { collateral_base, liability_base })
    }
}

} // verus!
