use vstd::prelude::*;

use crate::constants::{SCALAR_7, SCALAR_9};
use crate::errors::PoolError;
use crate::fixed_math::{as_int, mul_div_floor, mul_floor};
use crate::pool::{auction_key, make_auction_key, Address, Pool, Positions};
use crate::reserve::{asset_from_d, b_from_asset, d_from_asset, Reserve, ReserveData};
use crate::reserve_usage::MAX_RESERVES;
use crate::user_data::{
    add_opt, collateral_value, lemma_inactive_user_values_zero, user_position, value_collateral, UserAction, UserData,
};

verus! {

/// The three kinds of auction the pool runs.
#[derive(Clone, Copy, Debug, PartialEq, Eq, Structural)]
pub enum AuctionType {
    /// Collateral of an unhealthy user sold against the user's debt.
    UserLiquidation,
    /// Debt the backstop absorbed, sold against backstop tokens.
    BadDebtAuction,
    /// Interest the protocol earned, sold against backstop tokens.
    InterestAuction,
}

/// The auction type a code stands for: 0, 1 and 2 in declaration order.
pub open spec fn auction_type_of(value: u32) -> AuctionType
    recommends
        value < 3,
{
    if value == 0 {
        AuctionType::UserLiquidation
    } else if value == 1 {
        AuctionType::BadDebtAuction
    } else {
        AuctionType::InterestAuction
    }
}

impl AuctionType {
    /// The code of this auction type, the inverse of `auction_type_of`.
    pub open spec fn code(self) -> u32 {
        match self {
            AuctionType::UserLiquidation => 0,
            AuctionType::BadDebtAuction => 1,
            AuctionType::InterestAuction => 2,
        }
    }

    pub fn from_u32(value: u32) -> (r: Self)
        requires
            value < 3,
        ensures
            r == auction_type_of(value),
            r.code() == value,
    {
        match value {
            0 => AuctionType::UserLiquidation,
            1 => AuctionType::BadDebtAuction,
            _ => AuctionType::InterestAuction,
        }
    }

    pub fn to_u32(&self) -> (r: u32)
        ensures
            r == self.code(),
            auction_type_of(r) == *self,
    {
        match self {
            AuctionType::UserLiquidation => 0,
            AuctionType::BadDebtAuction => 1,
            AuctionType::InterestAuction => 2,
        }
    }
}

/// A stored auction: amounts per reserve index on each side, and the block it was created in.
#[derive(Clone, Debug)]
pub struct AuctionData {
    /// What the filler pays: reserve index and amount.
    pub bid: Vec<(u32, i128)>,
    /// What the filler receives: reserve index and amount.
    pub lot: Vec<(u32, i128)>,
    /// The ledger sequence number at creation.
    pub block: u32,
}

fn copy_entries(v: &Vec<(u32, i128)>) -> (r: Vec<(u32, i128)>)
    ensures
        r@ == v@,
{
    let mut out: Vec<(u32, i128)> = Vec::new();
    let mut k: usize = 0;
    while k < v.len()
        invariant
            k <= v@.len(),
            out@ == v@.take(k as int),
        decreases v@.len() - k,
    {
        out.push(v[k]);
        assert(out@ =~= v@.take(k + 1));
        k = k + 1;
    }
    assert(v@.take(k as int) =~= v@);
    out
}

impl View for AuctionData {
    type V = (Seq<(u32, i128)>, Seq<(u32, i128)>, u32);

    open spec fn view(&self) -> Self::V {
        (self.bid@, self.lot@, self.block)
    }
}

impl AuctionData {
    /// A copy of this auction.
    pub fn duplicate(&self) -> (r: AuctionData)
        ensures
            r@ == self@,
    {
        AuctionData { bid: copy_entries(&self.bid), lot: copy_entries(&self.lot), block: self.block }
    }

    /// Every bid and lot amount is at least zero.
    pub open spec fn amounts_nonnegative(&self) -> bool {
        &&& forall|k: int| 0 <= k < self.bid@.len() ==> (#[trigger] self.bid@[k]).1 >= 0
        &&& forall|k: int| 0 <= k < self.lot@.len() ==> (#[trigger] self.lot@[k]).1 >= 0
    }
}

/// Growth of the lot modifier, and fall of the bid modifier, per block (0.5%).
pub const PER_BLOCK_SCALAR: i128 = 0_0050000;

/// The (bid, lot) modifiers, scaled by `SCALAR_7`, after `blocks` blocks.
pub open spec fn fill_modifiers(blocks: int) -> (int, int) {
    if blocks > 400 {
        (0, SCALAR_7 as int)
    } else if blocks > 200 {
        (2 * SCALAR_7 - blocks * PER_BLOCK_SCALAR, SCALAR_7 as int)
    } else {
        (SCALAR_7 as int, blocks * PER_BLOCK_SCALAR)
    }
}

/// The current fill modifiers of an auction, as (bid modifier, lot modifier)
/// scaled to 7 decimals.
///
/// For the first 200 blocks the lot modifier rises by 0.5% a block while the bid
/// modifier stays whole; for the next 200 the bid modifier falls by 0.5% a block
/// while the lot modifier stays whole; after 400 blocks the bid is free.
pub fn get_fill_modifiers(current_block: u32, auction_data: &AuctionData) -> (r: (i128, i128))
    requires
        current_block >= auction_data.block,
    ensures
        r.0 == fill_modifiers(current_block - auction_data.block).0,
        r.1 == fill_modifiers(current_block - auction_data.block).1,
        current_block - auction_data.block >= 400 ==> r.0 == 0 && r.1 == SCALAR_7,
        200 < current_block - auction_data.block <= 400 ==> r.1 == SCALAR_7 && r.0
            + (current_block - auction_data.block) * PER_BLOCK_SCALAR == 2 * SCALAR_7,
        current_block - auction_data.block <= 200 ==> r.0 == SCALAR_7 && r.1 == (current_block
            - auction_data.block) * PER_BLOCK_SCALAR,
        0 <= r.0 <= SCALAR_7,
        0 <= r.1 <= SCALAR_7,
{
    let blocks: u32 = current_block - auction_data.block;
    let block_dif: i128 = (blocks as i128) * SCALAR_7;
    let bid_mod: i128;
    let lot_mod: i128;
    if block_dif > 400_0000000 {
        bid_mod = 0;
        lot_mod = SCALAR_7;
    } else if block_dif > 200_0000000 {
        let step = mul_floor(block_dif, PER_BLOCK_SCALAR, SCALAR_7);
        assert(block_dif * PER_BLOCK_SCALAR / (SCALAR_7 as int) == blocks * PER_BLOCK_SCALAR) by (nonlinear_arith)
            requires block_dif == blocks * SCALAR_7, SCALAR_7 > 0;
        bid_mod = 2 * SCALAR_7 - step.unwrap();
        lot_mod = SCALAR_7;
    } else {
        let step = mul_floor(block_dif, PER_BLOCK_SCALAR, SCALAR_7);
        assert(block_dif * PER_BLOCK_SCALAR / (SCALAR_7 as int) == blocks * PER_BLOCK_SCALAR) by (nonlinear_arith)
            requires block_dif == blocks * SCALAR_7, SCALAR_7 > 0;
        bid_mod = SCALAR_7;
        lot_mod = step.unwrap();
    }
    (bid_mod, lot_mod)
}

/// What a fill pays and receives: amounts by asset, and the auction's block.
#[derive(Clone, Debug)]
pub struct AuctionQuote {
    pub bid: Vec<(Address, i128)>,
    pub lot: Vec<(Address, i128)>,
    pub block: u32,
}

/// A quote as values: (bid, lot, block).
pub type QuoteView = (Seq<(Address, i128)>, Seq<(Address, i128)>, u32);

/// The values of a quote, or its error.
pub open spec fn quote_view(r: Result<AuctionQuote, PoolError>) -> Result<QuoteView, PoolError> {
    match r {
        Ok(q) => Ok((q.bid@, q.lot@, q.block)),
        Err(e) => Err(e),
    }
}

/// `amount` scaled by `modifier` (7 decimals), rounded down.
pub open spec fn scaled(amount: int, modifier: int) -> Option<int> {
    mul_div_floor(amount, modifier, SCALAR_7 as int)
}

/// The asset behind an auction index: a reserve's asset, or past the last
/// reserve the backstop token.
pub open spec fn asset_at(pool: Pool, index: u32) -> Address {
    if index < pool.reserves@.len() {
        pool.reserves@[index as int].asset
    } else {
        pool.backstop_token
    }
}

/// Every amount of `side` can be scaled by `modifier` within `i128`.
pub open spec fn side_fits(side: Seq<(u32, i128)>, modifier: int) -> bool {
    forall|k: int| 0 <= k < side.len() ==> (#[trigger] scaled(side[k].1 as int, modifier)) is Some
}

/// Every entry of `side` names a reserve.
pub open spec fn indices_in_range(pool: Pool, side: Seq<(u32, i128)>) -> bool {
    forall|k: int| 0 <= k < side.len() ==> (#[trigger] side[k]).0 < pool.reserves@.len()
}

/// The quoted amount of an entry: its scaled amount, or for a debt (`debt`)
/// the underlying those scaled d-tokens are worth, rounded up; `None` on overflow.
pub open spec fn quoted_amount(pool: Pool, e: (u32, i128), modifier: int, debt: bool) -> Option<int> {
    match scaled(e.1 as int, modifier) {
        None => None,
        Some(v) => if debt {
            asset_from_d(pool.reserves@[e.0 as int], v)
        } else {
            Some(v)
        },
    }
}

/// Every entry of `side` can be quoted within `i128`.
pub open spec fn side_quotable(pool: Pool, side: Seq<(u32, i128)>, modifier: int, debt: bool) -> bool {
    forall|k: int| 0 <= k < side.len() ==> quoted_amount(pool, #[trigger] side[k], modifier, debt) is Some
}

/// The quoted side: each entry's asset with its quoted amount.
pub open spec fn quote_of_side(pool: Pool, side: Seq<(u32, i128)>, modifier: int, debt: bool) -> Seq<(Address, i128)> {
    Seq::new(side.len(), |k: int| (asset_at(pool, side[k].0), quoted_amount(pool, side[k], modifier, debt)->0 as i128))
}

/// What previewing the auction of `auction_type` on `user` gives as the pool
/// stands. The bid of a liquidation or bad-debt auction is quoted in the
/// underlying the filler pays for the scaled d-tokens; every other side in its
/// scaled amounts.
pub open spec fn preview_spec(pool: Pool, auction_type: u32, user: Address) -> Result<QuoteView, PoolError> {
    if auction_type >= 3 || !pool.has_auction_spec(auction_type, user) {
        Err(PoolError::BadRequest)
    } else {
        let d = pool.auctions@[auction_key(auction_type, user)];
        let m = fill_modifiers(pool.block - d.block);
        let debt = auction_type < 2;
        if debt && !indices_in_range(pool, d.bid@) {
            Err(PoolError::BadRequest)
        } else if side_quotable(pool, d.bid@, m.0, debt) && side_quotable(pool, d.lot@, m.1, false) {
            Ok((quote_of_side(pool, d.bid@, m.0, debt), quote_of_side(pool, d.lot@, m.1, false), d.block))
        } else {
            Err(PoolError::ArithmeticOverflow)
        }
    }
}

/// The pools agree on everything but their auctions.
pub open spec fn same_but_auctions(a: Pool, b: Pool) -> bool {
    &&& a.reserves == b.reserves
    &&& a.prices == b.prices
    &&& a.backstop == b.backstop
    &&& a.backstop_token == b.backstop_token
    &&& a.backstop_credit == b.backstop_credit
    &&& a.block == b.block
    &&& a.positions == b.positions
}

fn quote_side(pool: &Pool, side: &Vec<(u32, i128)>, modifier: i128, debt: bool) -> (r: Option<Vec<(Address, i128)>>)
    requires
        modifier >= 0,
        debt ==> indices_in_range(*pool, side@),
    ensures
        r is Some <==> side_quotable(*pool, side@, modifier as int, debt),
        r matches Some(v) ==> v@ == quote_of_side(*pool, side@, modifier as int, debt),
{
    let mut out: Vec<(Address, i128)> = Vec::new();
    let mut k: usize = 0;
    while k < side.len()
        invariant
            modifier >= 0,
            debt ==> indices_in_range(*pool, side@),
            k <= side@.len(),
            out@ == quote_of_side(*pool, side@.take(k as int), modifier as int, debt),
            forall|j: int| 0 <= j < k ==> quoted_amount(*pool, #[trigger] side@[j], modifier as int, debt) is Some,
        decreases side@.len() - k,
    {
        let (index, amount) = side[k];
        let v = match mul_floor(amount, modifier, SCALAR_7) {
            None => None,
            Some(v) => if debt {
                pool.reserves[index as usize].to_asset_from_d_token(v)
            } else {
                Some(v)
            },
        };
        match v {
            None => {
                assert(quoted_amount(*pool, side@[k as int], modifier as int, debt) is None);
                return None;
            },
            Some(v) => {
                let asset = if (index as usize) < pool.reserves.len() {
                    pool.reserves[index as usize].asset
                } else {
                    pool.backstop_token
                };
                out.push((asset, v));
                assert(out@ =~= quote_of_side(*pool, side@.take(k + 1), modifier as int, debt));
            },
        }
        k = k + 1;
    }
    assert(side@.take(k as int) =~= side@);
    Some(out)
}

fn all_in_range(pool: &Pool, side: &Vec<(u32, i128)>) -> (r: bool)
    ensures
        r == indices_in_range(*pool, side@),
{
    let mut k: usize = 0;
    while k < side.len()
        invariant
            k <= side@.len(),
            forall|j: int| 0 <= j < k ==> (#[trigger] side@[j]).0 < pool.reserves@.len(),
        decreases side@.len() - k,
    {
        if side[k].0 as usize >= pool.reserves.len() {
            return false;
        }
        k = k + 1;
    }
    true
}

/// Quotes the auction of `auction_type` on `user` at the pool's current block,
/// without changing anything: the same pool always gives the same quote.
///
/// For a liquidation or bad-debt auction the bid is quoted in the underlying
/// the filler pays for the scaled d-tokens.
///
/// Fails with `BadRequest` for an unknown type, a missing auction or a debt
/// naming no reserve, and with `ArithmeticOverflow` where a quoted amount
/// leaves `i128`.
pub fn preview_fill(pool: &Pool, auction_type: u32, user: Address) -> (r: Result<AuctionQuote, PoolError>)
    requires
        pool.wf(),
    ensures
        quote_view(r) == preview_spec(*pool, auction_type, user),
{
    broadcast use vstd::std_specs::hash::group_hash_axioms;

    if auction_type >= 3 {
        return Err(PoolError::BadRequest);
    }
    let key = make_auction_key(auction_type, user);
    match pool.auctions.get(&key) {
        None => Err(PoolError::BadRequest),
        Some(data) => {
            let (bid_mod, lot_mod) = get_fill_modifiers(pool.block, data);
            let debt = auction_type < 2;
            if debt && !all_in_range(pool, &data.bid) {
                return Err(PoolError::BadRequest);
            }
            let bid = quote_side(pool, &data.bid, bid_mod, debt);
            let lot = quote_side(pool, &data.lot, lot_mod, false);
            match (bid, lot) {
                (Some(bid), Some(lot)) => Ok(AuctionQuote { bid, lot, block: data.block }),
                _ => Err(PoolError::ArithmeticOverflow),
            }
        },
    }
}

/// Deletes the liquidation auction on `user` once the user is healthy again.
///
/// Fails with `BadRequest` where no such auction runs, with `InvalidHf` where
/// the user's collateral does not exceed its liability, and with
/// `ArithmeticOverflow` where valuing the user overflows; the pool is then unchanged.
///
/// Reserves are taken as stored: the caller brings them up to the current
/// block with `Reserve::accrue` at the start of the invocation.
pub fn delete_liquidation(pool: &mut Pool, user: Address) -> (r: Result<(), PoolError>)
    requires
        old(pool).wf(),
    ensures
        !old(pool).has_auction_spec(0, user) ==> r == Err::<(), PoolError>(PoolError::BadRequest),
        old(pool).has_auction_spec(0, user) ==> match user_position(*old(pool), user) {
            None => r == Err::<(), PoolError>(PoolError::ArithmeticOverflow),
            Some((c, l)) => if c > l {
                r == Ok::<(), PoolError>(())
            } else {
                r == Err::<(), PoolError>(PoolError::InvalidHf)
            },
        },
        r is Ok ==> final(pool).auctions@ == old(pool).auctions@.remove(auction_key(0, user))
            && same_but_auctions(*final(pool), *old(pool)),
        r is Err ==> *final(pool) == *old(pool),
        final(pool).wf(),
{
    broadcast use vstd::std_specs::hash::group_hash_axioms;

    let key = make_auction_key(AuctionType::UserLiquidation.to_u32(), user);
    if !pool.auctions.contains_key(&key) {
        return Err(PoolError::BadRequest);
    }
    let action = UserAction::none();
    let loaded = match pool.positions.get(&user) {
        Some(p) => UserData::load(pool, p, &action),
        None => {
            let empty = Positions::empty();
            proof {
                lemma_inactive_user_values_zero(*pool, empty, action);
            }
            UserData::load(pool, &empty, &action)
        },
    };
    match loaded {
        Err(e) => Err(e),
        Ok(data) => {
            if data.collateral_base > data.liability_base {
                pool.auctions.remove(&key);
                Ok(())
            } else {
                Err(PoolError::InvalidHf)
            }
        },
    }
}

/// The scaled amounts of the first `k` entries of `side` that fall on index `i`.
pub open spec fn moved(side: Seq<(u32, i128)>, modifier: int, k: int, i: int) -> int
    decreases k,
{
    if k <= 0 {
        0
    } else {
        moved(side, modifier, k - 1, i) + if side[k - 1].0 == i {
            scaled(side[k - 1].1 as int, modifier)->0
        } else {
            0
        }
    }
}

/// `r` with its d-token supply set to `v`.
pub open spec fn with_d_supply(r: Reserve, v: int) -> Reserve {
    Reserve { data: ReserveData { d_supply: v as i128, ..r.data }, ..r }
}

/// Everything outside the positions and the reserves stays.
pub open spec fn same_settings(a: Pool, b: Pool) -> bool {
    &&& a.prices == b.prices
    &&& a.backstop == b.backstop
    &&& a.backstop_token == b.backstop_token
    &&& a.block == b.block
    &&& a.auctions == b.auctions
}

/// No user's liabilities change.
pub open spec fn same_liabilities(a: Pool, b: Pool) -> bool {
    forall|u: Address, i: int| #[trigger] b.liability_in(u, i) == a.liability_in(u, i)
}

/// No user's collateral changes.
pub open spec fn same_collateral(a: Pool, b: Pool) -> bool {
    forall|u: Address, i: int| #[trigger] b.collateral_in(u, i) == a.collateral_in(u, i)
}

/// `subject`'s d-tokens, and each reserve's d-token supply, fall by what `side` repays.
pub open spec fn debt_repaid(a: Pool, b: Pool, subject: Address, side: Seq<(u32, i128)>, m: int) -> bool {
    &&& forall|u: Address, i: int| #[trigger]
        b.liability_in(u, i) == a.liability_in(u, i) - if u == subject {
            moved(side, m, side.len() as int, i)
        } else {
            0
        }
    &&& b.reserves@.len() == a.reserves@.len()
    &&& forall|i: int| 0 <= i < a.reserves@.len() ==> #[trigger] b.reserves@[i] == with_d_supply(
        a.reserves@[i],
        a.reserves@[i].data.d_supply - moved(side, m, side.len() as int, i),
    ) && b.reserves@[i].data.d_supply == a.reserves@[i].data.d_supply - moved(side, m, side.len() as int, i)
}

/// `from`'s b-tokens pass to `to` as `side` lists them.
pub open spec fn collateral_moved(a: Pool, b: Pool, from: Address, to: Address, side: Seq<(u32, i128)>, m: int) -> bool {
    forall|u: Address, i: int| #[trigger]
        b.collateral_in(u, i) == a.collateral_in(u, i) + if from == to {
            0
        } else if u == to {
            moved(side, m, side.len() as int, i)
        } else if u == from {
            -moved(side, m, side.len() as int, i)
        } else {
            0
        }
}

/// The backstop's interest credit falls by what `side` pays out.
pub open spec fn credit_spent(a: Pool, b: Pool, side: Seq<(u32, i128)>, m: int) -> bool {
    &&& b.backstop_credit@.len() == a.backstop_credit@.len()
    &&& forall|i: int| 0 <= i < a.backstop_credit@.len() ==> #[trigger] b.backstop_credit@[i]
        == a.backstop_credit@[i] - moved(side, m, side.len() as int, i)
}

/// Entry `k` of `side` can be repaid after the ones before it.
pub open spec fn repay_entry_ok(pool: Pool, subject: Address, side: Seq<(u32, i128)>, m: int, k: int) -> bool {
    let i = side[k].0 as int;
    &&& i < pool.reserves@.len()
    &&& asset_from_d(pool.reserves@[i], scaled(side[k].1 as int, m)->0) is Some
    &&& moved(side, m, k + 1, i) <= pool.liability_in(subject, i)
    &&& pool.reserves@[i].data.d_supply - moved(side, m, k + 1, i) >= i128::MIN
}

/// Entry `k` of `side` can be moved after the ones before it.
pub open spec fn move_entry_ok(pool: Pool, from: Address, to: Address, side: Seq<(u32, i128)>, m: int, k: int) -> bool {
    let i = side[k].0 as int;
    &&& i < pool.reserves@.len()
    &&& if from == to {
        scaled(side[k].1 as int, m)->0 <= pool.collateral_in(from, i)
    } else {
        moved(side, m, k + 1, i) <= pool.collateral_in(from, i) && pool.collateral_in(to, i) + moved(
            side,
            m,
            k + 1,
            i,
        ) <= i128::MAX
    }
}

/// Entry `k` of `side` can be paid out of the credit after the ones before it.
pub open spec fn spend_entry_ok(pool: Pool, side: Seq<(u32, i128)>, m: int, k: int) -> bool {
    let i = side[k].0 as int;
    &&& i < pool.reserves@.len()
    &&& moved(side, m, k + 1, i) <= pool.backstop_credit@[i]
}

/// Repays `amount` d-tokens of reserve `index` for `user`, reducing the reserve's
/// d-token supply alike, and returns the underlying the filler pays for them:
/// the d-tokens at the reserve's d-token rate, rounded up.
///
/// Fails with `BadRequest` for an index that names no reserve, with
/// `InsufficientBalance` where the user owes less, and with
/// `ArithmeticOverflow` where the underlying or the supply would leave `i128`;
/// the pool is then unchanged.
pub(crate) fn fill_debt_token(pool: &mut Pool, user: Address, index: u32, amount: i128) -> (r: Result<i128, PoolError>)
    requires
        old(pool).wf(),
        amount >= 0,
    ensures
        final(pool).wf(),
        r == Err::<i128, PoolError>(PoolError::BadRequest) <==> index >= old(pool).reserves@.len(),
        r == Err::<i128, PoolError>(PoolError::ArithmeticOverflow) <==> index < old(pool).reserves@.len() && (asset_from_d(
            old(pool).reserves@[index as int],
            amount as int,
        ) is None || amount <= old(pool).liability_in(user, index as int) && old(pool).reserves@[index as int].data.d_supply
            - amount < i128::MIN),
        r == Err::<i128, PoolError>(PoolError::InsufficientBalance) <==> index < old(pool).reserves@.len() && asset_from_d(
            old(pool).reserves@[index as int],
            amount as int,
        ) is Some && amount > old(pool).liability_in(user, index as int),
        r is Err ==> *final(pool) == *old(pool) && (r == Err::<i128, PoolError>(PoolError::BadRequest) || r == Err::<
            i128,
            PoolError,
        >(PoolError::InsufficientBalance) || r == Err::<i128, PoolError>(PoolError::ArithmeticOverflow)),
        r matches Ok(u) ==> {
            &&& Some(u as int) == asset_from_d(old(pool).reserves@[index as int], amount as int)
            &&& final(pool).liability_in(user, index as int) == old(pool).liability_in(user, index as int) - amount
            &&& forall|u: Address, i: int| #![trigger final(pool).liability_in(u, i)]
                (u != user || i != index) ==> final(pool).liability_in(u, i) == old(pool).liability_in(u, i)
            &&& same_collateral(*old(pool), *final(pool))
            &&& final(pool).reserves@ == old(pool).reserves@.update(
                index as int,
                with_d_supply(old(pool).reserves@[index as int], old(pool).reserves@[index as int].data.d_supply - amount),
            )
            &&& final(pool).backstop_credit == old(pool).backstop_credit
            &&& same_settings(*old(pool), *final(pool))
        },
{
    if index as usize >= pool.reserves.len() {
        return Err(PoolError::BadRequest);
    }
    let mut reserve = pool.reserves[index as usize];
    let underlying = match reserve.to_asset_from_d_token(amount) {
        None => {
            return Err(PoolError::ArithmeticOverflow);
        },
        Some(u) => u,
    };
    let balance = pool.get_liability(user, index);
    if amount > balance {
        return Err(PoolError::InsufficientBalance);
    }
    match reserve.data.d_supply.checked_sub(amount) {
        None => Err(PoolError::ArithmeticOverflow),
        Some(supply) => {
            reserve.data.d_supply = supply;
            pool.reserves.set(index as usize, reserve);
            pool.set_liability(user, index, balance - amount);
            Ok(underlying)
        },
    }
}

/// Moves `amount` b-tokens of reserve `index` from `from` to `to`.
///
/// Fails with `BadRequest` for an index that names no reserve, with
/// `InsufficientBalance` where `from` holds less, and with
/// `ArithmeticOverflow` where `to`'s balance would leave `i128`; the pool is then unchanged.
fn move_collateral(pool: &mut Pool, from: Address, to: Address, index: u32, amount: i128) -> (r: Result<(), PoolError>)
    requires
        old(pool).wf(),
        amount >= 0,
    ensures
        final(pool).wf(),
        r == Err::<(), PoolError>(PoolError::BadRequest) <==> index >= old(pool).reserves@.len(),
        r == Err::<(), PoolError>(PoolError::InsufficientBalance) <==> index < old(pool).reserves@.len()
            && amount > old(pool).collateral_in(from, index as int),
        r == Err::<(), PoolError>(PoolError::ArithmeticOverflow) <==> index < old(pool).reserves@.len()
            && amount <= old(pool).collateral_in(from, index as int) && from != to
            && old(pool).collateral_in(to, index as int) + amount > i128::MAX,
        r is Err ==> *final(pool) == *old(pool) && (r == Err::<(), PoolError>(PoolError::BadRequest) || r == Err::<
            (),
            PoolError,
        >(PoolError::InsufficientBalance) || r == Err::<(), PoolError>(PoolError::ArithmeticOverflow)),
        r is Ok ==> {
            &&& forall|u: Address, i: int| #![trigger final(pool).collateral_in(u, i)]
                final(pool).collateral_in(u, i) == old(pool).collateral_in(u, i) + if from == to || i != index {
                    0
                } else if u == to {
                    amount as int
                } else if u == from {
                    -amount
                } else {
                    0
                }
            &&& same_liabilities(*old(pool), *final(pool))
            &&& final(pool).reserves == old(pool).reserves
            &&& final(pool).backstop_credit == old(pool).backstop_credit
            &&& same_settings(*old(pool), *final(pool))
        },
{
    if index as usize >= pool.reserves.len() {
        return Err(PoolError::BadRequest);
    }
    let from_balance = pool.get_collateral(from, index);
    if amount > from_balance {
        return Err(PoolError::InsufficientBalance);
    }
    if from == to {
        return Ok(());
    }
    let to_balance = pool.get_collateral(to, index);
    match to_balance.checked_add(amount) {
        None => Err(PoolError::ArithmeticOverflow),
        Some(new_to) => {
            pool.set_collateral(from, index, from_balance - amount);
            pool.set_collateral(to, index, new_to);
            Ok(())
        },
    }
}

/// Pays `amount` of reserve `index`'s underlying out of the backstop's interest credit.
///
/// Fails with `BadRequest` for an index that names no reserve and with
/// `InsufficientBalance` where the credit is smaller; the pool is then unchanged.
fn spend_credit(pool: &mut Pool, index: u32, amount: i128) -> (r: Result<(), PoolError>)
    requires
        old(pool).wf(),
        amount >= 0,
    ensures
        final(pool).wf(),
        r == Err::<(), PoolError>(PoolError::BadRequest) <==> index >= old(pool).reserves@.len(),
        r == Err::<(), PoolError>(PoolError::InsufficientBalance) <==> index < old(pool).reserves@.len()
            && amount > old(pool).backstop_credit@[index as int],
        r is Err ==> *final(pool) == *old(pool) && (r == Err::<(), PoolError>(PoolError::BadRequest) || r == Err::<
            (),
            PoolError,
        >(PoolError::InsufficientBalance)),
        r is Ok ==> {
            &&& final(pool).backstop_credit@ == old(pool).backstop_credit@.update(
                index as int,
                (old(pool).backstop_credit@[index as int] - amount) as i128,
            )
            &&& final(pool).positions == old(pool).positions
            &&& final(pool).reserves == old(pool).reserves
            &&& same_settings(*old(pool), *final(pool))
        },
{
    if index as usize >= pool.reserves.len() {
        return Err(PoolError::BadRequest);
    }
    let credit = pool.backstop_credit[index as usize];
    if amount > credit {
        return Err(PoolError::InsufficientBalance);
    }
    pool.backstop_credit.set(index as usize, credit - amount);
    Ok(())
}

/// Repays, for `subject`, every debt entry of `side` scaled by `modifier`, in order.
fn repay_side(pool: &mut Pool, subject: Address, side: &Vec<(u32, i128)>, modifier: i128) -> (r: Result<(), PoolError>)
    requires
        old(pool).wf(),
        0 <= modifier <= SCALAR_7,
        side_fits(side@, modifier as int),
        forall|k: int| 0 <= k < side@.len() ==> (#[trigger] side@[k]).1 >= 0,
    ensures
        final(pool).wf(),
        r is Ok ==> {
            &&& debt_repaid(*old(pool), *final(pool), subject, side@, modifier as int)
            &&& same_collateral(*old(pool), *final(pool))
            &&& final(pool).backstop_credit == old(pool).backstop_credit
            &&& same_settings(*old(pool), *final(pool))
        },
        (forall|k: int| 0 <= k < side@.len() ==> #[trigger] repay_entry_ok(*old(pool), subject, side@, modifier as int, k))
            ==> r is Ok,
{
    let ghost start: Pool = *old(pool);
    let ghost m: int = modifier as int;
    let mut k: usize = 0;
    while k < side.len()
        invariant
            start == *old(pool),
            start.wf(),
            pool.wf(),
            0 <= modifier <= SCALAR_7,
            m == modifier as int,
            k <= side@.len(),
            side_fits(side@, m),
            forall|j: int| 0 <= j < side@.len() ==> (#[trigger] side@[j]).1 >= 0,
            forall|u: Address, i: int| #[trigger]
                pool.liability_in(u, i) == start.liability_in(u, i) - if u == subject {
                    moved(side@, m, k as int, i)
                } else {
                    0
                },
            pool.reserves@.len() == start.reserves@.len(),
            forall|i: int| 0 <= i < start.reserves@.len() ==> #[trigger] pool.reserves@[i] == with_d_supply(
                start.reserves@[i],
                pool.reserves@[i].data.d_supply as int,
            ),
            forall|i: int| 0 <= i < start.reserves@.len() ==> (#[trigger] pool.reserves@[i]).data.d_supply
                == start.reserves@[i].data.d_supply - moved(side@, m, k as int, i),
            same_collateral(start, *pool),
            pool.backstop_credit == start.backstop_credit,
            same_settings(start, *pool),
        decreases side@.len() - k,
    {
        let (index, amount) = side[k];
        assert(scaled(side@[k as int].1 as int, m) is Some);
        let amount = mul_floor(amount, modifier, SCALAR_7).unwrap();
        assert(amount >= 0) by (nonlinear_arith)
            requires amount == side@[k as int].1 * m / (SCALAR_7 as int), side@[k as int].1 >= 0, m >= 0;
        assert(scaled(side@[k as int].1 as int, m)->0 == amount);
        let ghost before: Pool = *pool;
        assert(forall|i: int| #[trigger] moved(side@, m, k + 1, i) == moved(side@, m, k as int, i) + if i
            == index {
            amount as int
        } else {
            0
        });
        let res = fill_debt_token(pool, subject, index, amount);
        match res {
            Err(e) => {
                proof {
                    if (index as int) < start.reserves@.len() {
                        assert(before.reserves@[index as int].data.d_supply
                            == start.reserves@[index as int].data.d_supply - moved(side@, m, k as int, index as int));
                        assert(before.liability_in(subject, index as int) == start.liability_in(subject, index as int)
                            - moved(side@, m, k as int, index as int));
                    }
                }
                assert(!repay_entry_ok(start, subject, side@, m, k as int));
                return Err(e);
            },
            Ok(_) => {},
        }
        k = k + 1;
    }
    assert forall|i: int| 0 <= i < start.reserves@.len() implies #[trigger] pool.reserves@[i] == with_d_supply(
        start.reserves@[i],
        start.reserves@[i].data.d_supply - moved(side@, m, side@.len() as int, i),
    ) by {
        assert(pool.reserves@[i] == with_d_supply(start.reserves@[i], pool.reserves@[i].data.d_supply as int));
    }
    Ok(())
}

/// Moves, from `from` to `to`, every collateral entry of `side` scaled by `modifier`, in order.
fn move_side(pool: &mut Pool, from: Address, to: Address, side: &Vec<(u32, i128)>, modifier: i128) -> (r: Result<(), PoolError>)
    requires
        old(pool).wf(),
        0 <= modifier <= SCALAR_7,
        side_fits(side@, modifier as int),
        forall|k: int| 0 <= k < side@.len() ==> (#[trigger] side@[k]).1 >= 0,
    ensures
        final(pool).wf(),
        r is Ok ==> {
            &&& collateral_moved(*old(pool), *final(pool), from, to, side@, modifier as int)
            &&& same_liabilities(*old(pool), *final(pool))
            &&& final(pool).reserves == old(pool).reserves
            &&& final(pool).backstop_credit == old(pool).backstop_credit
            &&& same_settings(*old(pool), *final(pool))
        },
        (forall|k: int| 0 <= k < side@.len() ==> #[trigger] move_entry_ok(*old(pool), from, to, side@, modifier as int, k))
            ==> r is Ok,
{
    let ghost start: Pool = *old(pool);
    let ghost m: int = modifier as int;
    let mut k: usize = 0;
    while k < side.len()
        invariant
            start == *old(pool),
            pool.wf(),
            0 <= modifier <= SCALAR_7,
            m == modifier as int,
            k <= side@.len(),
            side_fits(side@, m),
            forall|j: int| 0 <= j < side@.len() ==> (#[trigger] side@[j]).1 >= 0,
            forall|u: Address, i: int| #[trigger]
                pool.collateral_in(u, i) == start.collateral_in(u, i) + if from == to {
                    0
                } else if u == to {
                    moved(side@, m, k as int, i)
                } else if u == from {
                    -moved(side@, m, k as int, i)
                } else {
                    0
                },
            same_liabilities(start, *pool),
            pool.reserves == start.reserves,
            pool.backstop_credit == start.backstop_credit,
            same_settings(start, *pool),
        decreases side@.len() - k,
    {
        let (index, amount) = side[k];
        assert(scaled(side@[k as int].1 as int, m) is Some);
        let amount = mul_floor(amount, modifier, SCALAR_7).unwrap();
        assert(amount >= 0) by (nonlinear_arith)
            requires amount == side@[k as int].1 * m / (SCALAR_7 as int), side@[k as int].1 >= 0, m >= 0;
        assert(scaled(side@[k as int].1 as int, m)->0 == amount);
        let ghost before: Pool = *pool;
        assert(forall|i: int| #[trigger] moved(side@, m, k + 1, i) == moved(side@, m, k as int, i) + if i
            == index {
            amount as int
        } else {
            0
        });
        let res = move_collateral(pool, from, to, index, amount);
        match res {
            Err(e) => {
                proof {
                    if (index as int) < start.reserves@.len() {
                        assert(before.collateral_in(from, index as int) == start.collateral_in(from, index as int)
                            + if from == to { 0 } else { -moved(side@, m, k as int, index as int) });
                        assert(before.collateral_in(to, index as int) == start.collateral_in(to, index as int)
                            + if from == to { 0 } else { moved(side@, m, k as int, index as int) });
                    }
                }
                assert(!move_entry_ok(start, from, to, side@, m, k as int));
                return Err(e);
            },
            Ok(()) => {},
        }
        k = k + 1;
    }
    Ok(())
}

/// Pays out of the backstop's credit every entry of `side` scaled by `modifier`, in order.
fn spend_side(pool: &mut Pool, side: &Vec<(u32, i128)>, modifier: i128) -> (r: Result<(), PoolError>)
    requires
        old(pool).wf(),
        0 <= modifier <= SCALAR_7,
        side_fits(side@, modifier as int),
        forall|k: int| 0 <= k < side@.len() ==> (#[trigger] side@[k]).1 >= 0,
    ensures
        final(pool).wf(),
        r is Ok ==> {
            &&& credit_spent(*old(pool), *final(pool), side@, modifier as int)
            &&& final(pool).positions == old(pool).positions
            &&& final(pool).reserves == old(pool).reserves
            &&& same_settings(*old(pool), *final(pool))
        },
        (forall|k: int| 0 <= k < side@.len() ==> #[trigger] spend_entry_ok(*old(pool), side@, modifier as int, k))
            ==> r is Ok,
{
    let ghost start: Pool = *old(pool);
    let ghost m: int = modifier as int;
    let mut k: usize = 0;
    while k < side.len()
        invariant
            start == *old(pool),
            pool.wf(),
            0 <= modifier <= SCALAR_7,
            m == modifier as int,
            k <= side@.len(),
            side_fits(side@, m),
            forall|j: int| 0 <= j < side@.len() ==> (#[trigger] side@[j]).1 >= 0,
            pool.backstop_credit@.len() == start.backstop_credit@.len(),
            forall|i: int| 0 <= i < start.backstop_credit@.len() ==> #[trigger] pool.backstop_credit@[i]
                == start.backstop_credit@[i] - moved(side@, m, k as int, i),
            pool.positions == start.positions,
            pool.reserves == start.reserves,
            same_settings(start, *pool),
        decreases side@.len() - k,
    {
        let (index, amount) = side[k];
        assert(scaled(side@[k as int].1 as int, m) is Some);
        let amount = mul_floor(amount, modifier, SCALAR_7).unwrap();
        assert(amount >= 0) by (nonlinear_arith)
            requires amount == side@[k as int].1 * m / (SCALAR_7 as int), side@[k as int].1 >= 0, m >= 0;
        assert(scaled(side@[k as int].1 as int, m)->0 == amount);
        assert(forall|i: int| #[trigger] moved(side@, m, k + 1, i) == moved(side@, m, k as int, i) + if i
            == index {
            amount as int
        } else {
            0
        });
        let res = spend_credit(pool, index, amount);
        match res {
            Err(e) => {
                assert(!spend_entry_ok(start, side@, m, k as int));
                return Err(e);
            },
            Ok(()) => {},
        }
        k = k + 1;
    }
    Ok(())
}

/// Previewing never changes the pool, and two previews of the same auction on
/// the same pool give the same quote.
pub proof fn lemma_preview_repeatable(
    pool: Pool,
    auction_type: u32,
    user: Address,
    first: Result<AuctionQuote, PoolError>,
    second: Result<AuctionQuote, PoolError>,
)
    requires
        quote_view(first) == preview_spec(pool, auction_type, user),
        quote_view(second) == preview_spec(pool, auction_type, user),
    ensures
        quote_view(first) == quote_view(second),
{
}

/// Once an auction is filled it is gone: a fill or preview of the same type and
/// subject fails with `BadRequest` until the auction is created anew.
pub proof fn lemma_filled_auction_cannot_refill(before: Pool, after: Pool, auction_type: u32, user: Address)
    requires
        after.auctions@ == before.auctions@.remove(auction_key(auction_type, user)),
    ensures
        !after.has_auction_spec(auction_type, user),
        preview_spec(after, auction_type, user) == Err::<QuoteView, PoolError>(PoolError::BadRequest),
{
}

/// The auction stored for `auction_type` on `user`.
pub open spec fn stored(pool: Pool, auction_type: u32, user: Address) -> AuctionData {
    pool.auctions@[auction_key(auction_type, user)]
}

/// The (bid, lot) modifiers of that auction at the pool's current block.
pub open spec fn stored_modifiers(pool: Pool, auction_type: u32, user: Address) -> (int, int) {
    fill_modifiers(pool.block - stored(pool, auction_type, user).block)
}

/// Why entry `k` of `side` cannot be settled after the ones before it, or
/// `None` where it can. `kind` 0 repays `from`'s debt, 1 moves `from`'s
/// collateral to `to`, 2 pays out of the backstop's credit.
pub open spec fn entry_err(kind: int, pool: Pool, from: Address, to: Address, side: Seq<(u32, i128)>, m: int, k: int) -> Option<
    PoolError,
> {
    let i = side[k].0 as int;
    let s = scaled(side[k].1 as int, m)->0;
    let run = moved(side, m, k + 1, i);
    if i >= pool.reserves@.len() {
        Some(PoolError::BadRequest)
    } else if kind == 0 {
        if asset_from_d(pool.reserves@[i], s) is None {
            Some(PoolError::ArithmeticOverflow)
        } else if run > pool.liability_in(from, i) {
            Some(PoolError::InsufficientBalance)
        } else if pool.reserves@[i].data.d_supply - run < i128::MIN {
            Some(PoolError::ArithmeticOverflow)
        } else {
            None
        }
    } else if kind == 1 {
        if from == to {
            if s > pool.collateral_in(from, i) {
                Some(PoolError::InsufficientBalance)
            } else {
                None
            }
        } else if run > pool.collateral_in(from, i) {
            Some(PoolError::InsufficientBalance)
        } else if pool.collateral_in(to, i) + run > i128::MAX {
            Some(PoolError::ArithmeticOverflow)
        } else {
            None
        }
    } else if run > pool.backstop_credit@[i] {
        Some(PoolError::InsufficientBalance)
    } else {
        None
    }
}

/// The error of the first of the first `n` entries of `side` that cannot be settled.
pub open spec fn first_err(kind: int, pool: Pool, from: Address, to: Address, side: Seq<(u32, i128)>, m: int, n: int) -> Option<
    PoolError,
>
    decreases n,
{
    if n <= 0 {
        None
    } else {
        match first_err(kind, pool, from, to, side, m, n - 1) {
            Some(e) => Some(e),
            None => entry_err(kind, pool, from, to, side, m, n - 1),
        }
    }
}

proof fn lemma_first_err(kind: int, pool: Pool, from: Address, to: Address, side: Seq<(u32, i128)>, m: int, n: int)
    requires
        n >= 0,
    ensures
        first_err(kind, pool, from, to, side, m, n) is None <==> forall|k: int| 0 <= k < n ==> #[trigger] entry_err(
            kind,
            pool,
            from,
            to,
            side,
            m,
            k,
        ) is None,
    decreases n,
{
    if n > 0 {
        lemma_first_err(kind, pool, from, to, side, m, n - 1);
    }
}

proof fn lemma_first_err_persists(kind: int, pool: Pool, from: Address, to: Address, side: Seq<(u32, i128)>, m: int, k: int, n: int)
    requires
        0 <= k <= n,
        first_err(kind, pool, from, to, side, m, k) is Some,
    ensures
        first_err(kind, pool, from, to, side, m, n) == first_err(kind, pool, from, to, side, m, k),
    decreases n - k,
{
    if k < n {
        lemma_first_err_persists(kind, pool, from, to, side, m, k, n - 1);
    }
}

/// Why settling the auction of `auction_type` on `user`, filled by `filler`,
/// cannot go through: the first debt, collateral or credit entry that fails,
/// in order; `None` where it goes through.
pub open spec fn settle_error(pool: Pool, auction_type: u32, user: Address, filler: Address) -> Option<PoolError> {
    let d = stored(pool, auction_type, user);
    let m = stored_modifiers(pool, auction_type, user);
    if auction_type == 2 {
        first_err(2, pool, user, filler, d.lot@, m.1, d.lot@.len() as int)
    } else {
        match first_err(0, pool, user, filler, d.bid@, m.0, d.bid@.len() as int) {
            Some(e) => Some(e),
            None => if auction_type == 0 {
                first_err(1, pool, user, filler, d.lot@, m.1, d.lot@.len() as int)
            } else {
                None
            },
        }
    }
}

proof fn lemma_scaled_nonnegative(a: int, m: int)
    requires
        a >= 0,
        m >= 0,
    ensures
        scaled(a, m) matches Some(v) ==> v >= 0,
{
    if scaled(a, m) is Some {
        assert(a * m / (SCALAR_7 as int) >= 0) by (nonlinear_arith)
            requires
                a >= 0,
                m >= 0,
        ;
    }
}

proof fn lemma_moved_monotone(side: Seq<(u32, i128)>, m: int, j: int, n: int, i: int)
    requires
        0 <= j <= n <= side.len(),
        m >= 0,
        side_fits(side, m),
        forall|k: int| 0 <= k < side.len() ==> (#[trigger] side[k]).1 >= 0,
    ensures
        0 <= moved(side, m, j, i) <= moved(side, m, n, i),
    decreases n,
{
    if n > 0 {
        lemma_scaled_nonnegative(side[n - 1].1 as int, m);
        assert(scaled(side[n - 1].1 as int, m) is Some);
        if j < n {
            lemma_moved_monotone(side, m, j, n - 1, i);
        } else {
            lemma_moved_monotone(side, m, j - 1, n - 1, i);
        }
    }
}

/// The scaled amounts of the first `n` entries of `side` on index `i`, or
/// `None` where their sum passes `i128::MAX`.
fn running(side: &Vec<(u32, i128)>, modifier: i128, n: usize, i: u32) -> (r: Option<i128>)
    requires
        n <= side@.len(),
        0 <= modifier <= SCALAR_7,
        side_fits(side@, modifier as int),
        forall|k: int| 0 <= k < side@.len() ==> (#[trigger] side@[k]).1 >= 0,
    ensures
        r matches Some(t) ==> t == moved(side@, modifier as int, n as int, i as int),
        r is None ==> moved(side@, modifier as int, n as int, i as int) > i128::MAX,
{
    let mut acc: i128 = 0;
    let mut j: usize = 0;
    while j < n
        invariant
            j <= n <= side@.len(),
            0 <= modifier <= SCALAR_7,
            side_fits(side@, modifier as int),
            forall|k: int| 0 <= k < side@.len() ==> (#[trigger] side@[k]).1 >= 0,
            acc == moved(side@, modifier as int, j as int, i as int),
        decreases n - j,
    {
        let (index, amount) = side[j];
        assert(scaled(side@[j as int].1 as int, modifier as int) is Some);
        let s = mul_floor(amount, modifier, SCALAR_7).unwrap();
        if index == i {
            match acc.checked_add(s) {
                Some(t) => {
                    acc = t;
                },
                None => {
                    proof {
                        lemma_scaled_nonnegative(side@[j as int].1 as int, modifier as int);
                        lemma_moved_monotone(side@, modifier as int, j + 1, n as int, i as int);
                    }
                    return None;
                },
            }
        }
        j = j + 1;
    }
    Some(acc)
}

/// Checks, without changing anything, that every entry of `side` can be
/// settled in order; `kind` as for `entry_err`.
fn check_side(pool: &Pool, kind: u8, from: Address, to: Address, side: &Vec<(u32, i128)>, modifier: i128) -> (r: Result<
    (),
    PoolError,
>)
    requires
        pool.wf(),
        kind <= 2,
        0 <= modifier <= SCALAR_7,
        side_fits(side@, modifier as int),
        forall|k: int| 0 <= k < side@.len() ==> (#[trigger] side@[k]).1 >= 0,
    ensures
        match first_err(kind as int, *pool, from, to, side@, modifier as int, side@.len() as int) {
            None => r == Ok::<(), PoolError>(()),
            Some(e) => r == Err::<(), PoolError>(e),
        },
{
    let mut k: usize = 0;
    while k < side.len()
        invariant
            pool.wf(),
            kind <= 2,
            k <= side@.len(),
            0 <= modifier <= SCALAR_7,
            side_fits(side@, modifier as int),
            forall|j: int| 0 <= j < side@.len() ==> (#[trigger] side@[j]).1 >= 0,
            first_err(kind as int, *pool, from, to, side@, modifier as int, k as int) is None,
        decreases side@.len() - k,
    {
        let (index, amount) = side[k];
        assert(scaled(side@[k as int].1 as int, modifier as int) is Some);
        let s = mul_floor(amount, modifier, SCALAR_7).unwrap();
        let err: Option<PoolError> = if index as usize >= pool.reserves.len() {
            Some(PoolError::BadRequest)
        } else if kind == 0 {
            if pool.reserves[index as usize].to_asset_from_d_token(s).is_none() {
                Some(PoolError::ArithmeticOverflow)
            } else {
                match running(side, modifier, k + 1, index) {
                    None => Some(PoolError::InsufficientBalance),
                    Some(t) => if t > pool.get_liability(from, index) {
                        Some(PoolError::InsufficientBalance)
                    } else if pool.reserves[index as usize].data.d_supply.checked_sub(t).is_none() {
                        Some(PoolError::ArithmeticOverflow)
                    } else {
                        None
                    },
                }
            }
        } else if kind == 1 {
            let balance = pool.get_collateral(from, index);
            if from == to {
                if s > balance {
                    Some(PoolError::InsufficientBalance)
                } else {
                    None
                }
            } else {
                match running(side, modifier, k + 1, index) {
                    None => Some(PoolError::InsufficientBalance),
                    Some(t) => if t > balance {
                        Some(PoolError::InsufficientBalance)
                    } else if pool.get_collateral(to, index).checked_add(t).is_none() {
                        Some(PoolError::ArithmeticOverflow)
                    } else {
                        None
                    },
                }
            }
        } else {
            match running(side, modifier, k + 1, index) {
                None => Some(PoolError::InsufficientBalance),
                Some(t) => if t > pool.backstop_credit[index as usize] {
                    Some(PoolError::InsufficientBalance)
                } else {
                    None
                },
            }
        };
        proof {
            lemma_scaled_nonnegative(side@[k as int].1 as int, modifier as int);
            lemma_moved_monotone(side@, modifier as int, 0, k + 1, index as int);
        }
        assert(err == entry_err(kind as int, *pool, from, to, side@, modifier as int, k as int));
        match err {
            Some(e) => {
                proof {
                    lemma_first_err_persists(
                        kind as int,
                        *pool,
                        from,
                        to,
                        side@,
                        modifier as int,
                        k + 1,
                        side@.len() as int,
                    );
                }
                return Err(e);
            },
            None => {},
        }
        k = k + 1;
    }
    Ok(())
}

/// `b` is `a` after settling the auction of `auction_type` on `user`, filled by `filler`:
/// a liquidation repays the user's debts and moves its collateral to the filler,
/// a bad-debt auction repays the backstop's debts, an interest auction pays out
/// the backstop's credit.
pub open spec fn settled(a: Pool, b: Pool, auction_type: u32, user: Address, filler: Address) -> bool {
    let d = stored(a, auction_type, user);
    let m = stored_modifiers(a, auction_type, user);
    &&& a.prices == b.prices
    &&& a.backstop == b.backstop
    &&& a.backstop_token == b.backstop_token
    &&& a.block == b.block
    &&& if auction_type == 0 {
        &&& debt_repaid(a, b, user, d.bid@, m.0)
        &&& collateral_moved(a, b, user, filler, d.lot@, m.1)
        &&& b.backstop_credit == a.backstop_credit
    } else if auction_type == 1 {
        &&& debt_repaid(a, b, user, d.bid@, m.0)
        &&& same_collateral(a, b)
        &&& b.backstop_credit == a.backstop_credit
    } else {
        &&& credit_spent(a, b, d.lot@, m.1)
        &&& b.positions == a.positions
        &&& b.reserves == a.reserves
    }
}

/// Fills the auction of `auction_type` on `user` for `filler` at the pool's
/// current block, and deletes it: it cannot be filled a second time.
///
/// Returns the quote that `preview_fill` gives. The filler pays the bid side
/// (for a debt, the underlying that `fill_debt_token` charges for the scaled
/// d-tokens) and receives the lot side of that quote; within the pool a
/// liquidation repays the user's scaled debts and moves its scaled collateral
/// to the filler, a bad-debt auction repays the backstop's scaled debts, and an
/// interest auction pays out the backstop's scaled credit.
///
/// Every entry is checked before anything changes. Fails as `preview_fill`
/// does, or with the error of the first entry that cannot be settled
/// (`settle_error`); the pool is then unchanged, the auction still stored.
///
/// Reserves are taken as stored: the caller brings them up to the current
/// block with `Reserve::accrue` at the start of the invocation.
pub fn fill(pool: &mut Pool, auction_type: u32, user: Address, filler: Address) -> (r: Result<AuctionQuote, PoolError>)
    requires
        old(pool).wf(),
    ensures
        final(pool).wf(),
        preview_spec(*old(pool), auction_type, user) is Err ==> quote_view(r) == preview_spec(
            *old(pool),
            auction_type,
            user,
        ) && *final(pool) == *old(pool),
        preview_spec(*old(pool), auction_type, user) is Ok ==> match settle_error(*old(pool), auction_type, user, filler) {
            Some(e) => r == Err::<AuctionQuote, PoolError>(e),
            None => r is Ok,
        },
        r is Err ==> *final(pool) == *old(pool),
        r is Ok ==> {
            &&& quote_view(r) == preview_spec(*old(pool), auction_type, user)
            &&& final(pool).auctions@ == old(pool).auctions@.remove(auction_key(auction_type, user))
            &&& !final(pool).has_auction_spec(auction_type, user)
            &&& settled(*old(pool), *final(pool), auction_type, user, filler)
        },
{
    broadcast use vstd::std_specs::hash::group_hash_axioms;

    let quote = match preview_fill(pool, auction_type, user) {
        Err(e) => {
            return Err(e);
        },
        Ok(q) => q,
    };
    let ghost start: Pool = *pool;
    let key = make_auction_key(auction_type, user);
    let checked = match pool.auctions.get(&key) {
        None => Err(PoolError::BadRequest),
        Some(data) => {
            let (bid_mod, lot_mod) = get_fill_modifiers(pool.block, data);
            if auction_type == 2 {
                check_side(pool, 2, user, filler, &data.lot, lot_mod)
            } else {
                match check_side(pool, 0, user, filler, &data.bid, bid_mod) {
                    Err(e) => Err(e),
                    Ok(()) => if auction_type == 0 {
                        check_side(pool, 1, user, filler, &data.lot, lot_mod)
                    } else {
                        Ok(())
                    },
                }
            }
        },
    };
    match checked {
        Err(e) => {
            return Err(e);
        },
        Ok(()) => {},
    }
    let data = pool.auctions.remove(&key).unwrap();
    assert(data == stored(start, auction_type, user));
    let (bid_mod, lot_mod) = get_fill_modifiers(pool.block, &data);
    let ghost removed: Pool = *pool;
    assert(stored_modifiers(start, auction_type, user) == (bid_mod as int, lot_mod as int));
    proof {
        lemma_first_err(0, start, user, filler, data.bid@, bid_mod as int, data.bid@.len() as int);
        lemma_first_err(1, start, user, filler, data.lot@, lot_mod as int, data.lot@.len() as int);
        lemma_first_err(2, start, user, filler, data.lot@, lot_mod as int, data.lot@.len() as int);
        if auction_type < 2 {
            assert forall|k: int| 0 <= k < data.bid@.len() implies #[trigger] repay_entry_ok(
                start,
                user,
                data.bid@,
                bid_mod as int,
                k,
            ) by {
                assert(entry_err(0, start, user, filler, data.bid@, bid_mod as int, k) is None);
            }
        }
        if auction_type == 0 {
            assert forall|k: int| 0 <= k < data.lot@.len() implies #[trigger] move_entry_ok(
                start,
                user,
                filler,
                data.lot@,
                lot_mod as int,
                k,
            ) by {
                assert(entry_err(1, start, user, filler, data.lot@, lot_mod as int, k) is None);
            }
        }
        if auction_type == 2 {
            assert forall|k: int| 0 <= k < data.lot@.len() implies #[trigger] spend_entry_ok(
                start,
                data.lot@,
                lot_mod as int,
                k,
            ) by {
                assert(entry_err(2, start, user, filler, data.lot@, lot_mod as int, k) is None);
            }
        }
    }
    assert forall|k: int| 0 <= k < data.bid@.len() && repay_entry_ok(
        start,
        user,
        data.bid@,
        bid_mod as int,
        k,
    ) implies #[trigger] repay_entry_ok(removed, user, data.bid@, bid_mod as int, k) by {
        let i = data.bid@[k].0 as int;
        assert(removed.liability_in(user, i) == start.liability_in(user, i));
    }
    assert forall|k: int| 0 <= k < data.lot@.len() && spend_entry_ok(start, data.lot@, lot_mod as int, k)
        implies #[trigger] spend_entry_ok(removed, data.lot@, lot_mod as int, k) by {}
    let settled = match AuctionType::from_u32(auction_type) {
        AuctionType::UserLiquidation => match repay_side(pool, user, &data.bid, bid_mod) {
            Ok(()) => {
                let ghost repaid: Pool = *pool;
                assert forall|k: int| 0 <= k < data.lot@.len() && move_entry_ok(
                    start,
                    user,
                    filler,
                    data.lot@,
                    lot_mod as int,
                    k,
                ) implies #[trigger] move_entry_ok(repaid, user, filler, data.lot@, lot_mod as int, k) by {
                    let i = data.lot@[k].0 as int;
                    assert(repaid.collateral_in(user, i) == start.collateral_in(user, i));
                    assert(repaid.collateral_in(filler, i) == start.collateral_in(filler, i));
                }
                move_side(pool, user, filler, &data.lot, lot_mod)
            },
            Err(e) => Err(e),
        },
        AuctionType::BadDebtAuction => repay_side(pool, user, &data.bid, bid_mod),
        AuctionType::InterestAuction => spend_side(pool, &data.lot, lot_mod),
    };
    match settled {
        Ok(()) => Ok(quote),
        Err(e) => Err(e),
    }
}

/// Amounts of underlying, by reserve index, that a liquidation is to cover:
/// the collateral to sell and the liabilities to repay.
#[derive(Clone, Debug)]
pub struct LiquidationMetadata {
    pub collateral: Vec<(u32, i128)>,
    pub liability: Vec<(u32, i128)>,
}

/// One named amount turned into an auction entry: the shares it stands for
/// (d-tokens rounded down for a liability, b-tokens rounded up for collateral),
/// capped at what `user` holds. A reserve that does not exist, an amount that
/// is not positive, or a cap at zero is a bad request.
pub open spec fn liq_entry(pool: Pool, user: Address, e: (u32, i128), is_liability: bool) -> Result<(u32, i128), PoolError> {
    let i = e.0 as int;
    if i >= pool.reserves@.len() || e.1 <= 0 {
        Err(PoolError::BadRequest)
    } else {
        let shares = if is_liability {
            d_from_asset(pool.reserves@[i], e.1 as int)
        } else {
            b_from_asset(pool.reserves@[i], e.1 as int)
        };
        let held = if is_liability {
            pool.liability_in(user, i)
        } else {
            pool.collateral_in(user, i)
        };
        match shares {
            None => Err(PoolError::ArithmeticOverflow),
            Some(v) => {
                let capped = if v < held {
                    v
                } else {
                    held
                };
                if capped <= 0 {
                    Err(PoolError::BadRequest)
                } else {
                    Ok((e.0, capped as i128))
                }
            },
        }
    }
}

/// Whether entry `k` of `named` names a reserve that an earlier entry names.
pub open spec fn repeats(named: Seq<(u32, i128)>, k: int) -> bool {
    exists|j: int| 0 <= j < k && #[trigger] named[j].0 == named[k].0
}

/// The entries for the first `n` named amounts, or the error of the first that
/// fails; naming a reserve twice is a bad request.
pub open spec fn liq_side(pool: Pool, user: Address, named: Seq<(u32, i128)>, is_liability: bool, n: int) -> Result<
    Seq<(u32, i128)>,
    PoolError,
>
    decreases n,
{
    if n <= 0 {
        Ok(Seq::empty())
    } else {
        match liq_side(pool, user, named, is_liability, n - 1) {
            Err(e) => Err(e),
            Ok(s) => if repeats(named, n - 1) {
                Err(PoolError::BadRequest)
            } else {
                match liq_entry(pool, user, named[n - 1], is_liability) {
                    Err(e) => Err(e),
                    Ok(x) => Ok(s.push(x)),
                }
            },
        }
    }
}

proof fn lemma_liq_side_err_persists(pool: Pool, user: Address, named: Seq<(u32, i128)>, is_liability: bool, k: int, n: int)
    requires
        0 <= k <= n,
        liq_side(pool, user, named, is_liability, k) is Err,
    ensures
        liq_side(pool, user, named, is_liability, n) == liq_side(pool, user, named, is_liability, k),
    decreases n - k,
{
    if k < n {
        lemma_liq_side_err_persists(pool, user, named, is_liability, k, n - 1);
    }
}

proof fn lemma_liq_side_positive(pool: Pool, user: Address, named: Seq<(u32, i128)>, is_liability: bool, n: int)
    requires
        0 <= n <= named.len(),
        liq_side(pool, user, named, is_liability, n) is Ok,
    ensures
        liq_side(pool, user, named, is_liability, n)->Ok_0.len() == n,
        forall|k: int| 0 <= k < n ==> (#[trigger] liq_side(pool, user, named, is_liability, n)->Ok_0[k]).1 > 0
            && liq_side(pool, user, named, is_liability, n)->Ok_0[k].0 == named[k].0
            && liq_side(pool, user, named, is_liability, n)->Ok_0[k].0 < pool.reserves@.len(),
        forall|a: int, b: int| 0 <= a < b < n ==> #[trigger] named[a].0 != #[trigger] named[b].0,
    decreases n,
{
    if n > 0 {
        lemma_liq_side_positive(pool, user, named, is_liability, n - 1);
        assert forall|a: int, b: int| 0 <= a < b < n implies #[trigger] named[a].0 != #[trigger] named[b].0 by {
            if b == n - 1 {
                assert(!repeats(named, n - 1));
            }
        }
    }
}

/// The summed value in the base asset of the first `n` entries of `lot`, each
/// valued as collateral (after its reserve's collateral factor); `None` on overflow.
pub open spec fn lot_value(pool: Pool, lot: Seq<(u32, i128)>, n: int) -> Option<int>
    decreases n,
{
    if n <= 0 {
        Some(0)
    } else {
        let i = lot[n - 1].0 as int;
        add_opt(
            lot_value(pool, lot, n - 1),
            collateral_value(pool.reserves@[i], lot[n - 1].1 as int, pool.prices@[i] as int),
        )
    }
}

/// What creating a liquidation of `user` from `liq` gives: the (bid, lot) of
/// the auction, or why it is refused.
pub open spec fn liquidation_spec(pool: Pool, user: Address, liq: LiquidationMetadata) -> Result<
    (Seq<(u32, i128)>, Seq<(u32, i128)>),
    PoolError,
> {
    if pool.has_auction_spec(0, user) {
        Err(PoolError::BadRequest)
    } else {
        match user_position(pool, user) {
            None => Err(PoolError::ArithmeticOverflow),
            Some((c, l)) => if c >= l {
                Err(PoolError::InvalidHf)
            } else {
                match liq_side(pool, user, liq.liability@, true, liq.liability@.len() as int) {
                    Err(e) => Err(e),
                    Ok(bid) => match liq_side(pool, user, liq.collateral@, false, liq.collateral@.len() as int) {
                        Err(e) => Err(e),
                        Ok(lot) => if bid.len() == 0 || lot.len() == 0 {
                            Err(PoolError::BadRequest)
                        } else {
                            match lot_value(pool, lot, lot.len() as int) {
                                None => Err(PoolError::ArithmeticOverflow),
                                Some(v) => if v > c {
                                    Err(PoolError::BadRequest)
                                } else {
                                    Ok((bid, lot))
                                },
                            }
                        },
                    },
                }
            },
        }
    }
}

fn build_liq_side(pool: &Pool, user: Address, named: &Vec<(u32, i128)>, is_liability: bool) -> (r: Result<Vec<(u32, i128)>, PoolError>)
    requires
        pool.wf(),
    ensures
        match liq_side(*pool, user, named@, is_liability, named@.len() as int) {
            Ok(s) => r matches Ok(v) && v@ == s,
            Err(e) => r == Err::<Vec<(u32, i128)>, PoolError>(e),
        },
{
    let mut out: Vec<(u32, i128)> = Vec::new();
    let mut k: usize = 0;
    while k < named.len()
        invariant
            pool.wf(),
            k <= named@.len(),
            liq_side(*pool, user, named@, is_liability, k as int) == Ok::<Seq<(u32, i128)>, PoolError>(out@),
        decreases named@.len() - k,
    {
        let (index, amount) = named[k];
        let mut j: usize = 0;
        let mut seen = false;
        while j < k
            invariant
                j <= k,
                k < named@.len(),
                index == named@[k as int].0,
                seen == exists|i: int| 0 <= i < j && #[trigger] named@[i].0 == named@[k as int].0,
            decreases k - j,
        {
            if named[j].0 == index {
                seen = true;
            }
            j = j + 1;
        }
        if seen || index as usize >= pool.reserves.len() || amount <= 0 {
            proof {
                lemma_liq_side_err_persists(*pool, user, named@, is_liability, k + 1, named@.len() as int);
            }
            return Err(PoolError::BadRequest);
        }
        let reserve = &pool.reserves[index as usize];
        proof {
            assert(pool.reserves@[index as int].wf());
        }
        let (shares, held) = if is_liability {
            (reserve.to_d_token_from_asset(amount), pool.get_liability(user, index))
        } else {
            (reserve.to_b_token_from_asset(amount), pool.get_collateral(user, index))
        };
        match shares {
            None => {
                proof {
                    lemma_liq_side_err_persists(*pool, user, named@, is_liability, k + 1, named@.len() as int);
                }
                return Err(PoolError::ArithmeticOverflow);
            },
            Some(v) => {
                let capped = if v < held {
                    v
                } else {
                    held
                };
                if capped <= 0 {
                    proof {
                        lemma_liq_side_err_persists(*pool, user, named@, is_liability, k + 1, named@.len() as int);
                    }
                    return Err(PoolError::BadRequest);
                }
                out.push((index, capped));
            },
        }
        k = k + 1;
    }
    Ok(out)
}

/// Creates the liquidation auction of `user`, selling the named collateral for
/// the named liabilities, and stores it at the pool's current block.
///
/// Fails with `BadRequest` where one runs already, with `InvalidHf` where the
/// user's collateral covers its liability, with `ArithmeticOverflow` where a
/// valuation overflows, and with `BadRequest` for a named amount that is not
/// positive, names no reserve or nothing the user holds, names a reserve twice,
/// or where either side ends up empty; the pool is then unchanged.
///
/// Each entry is capped at the user's holding, and the lot, valued as
/// collateral (after its collateral factor), may not exceed the user's
/// collateral base: what the filler gains over that value is the collateral
/// factor's haircut, the liquidation bonus. A larger lot is a bad request.
///
/// Reserves are taken as stored: the caller brings them up to the current
/// block with `Reserve::accrue` at the start of the invocation.
pub fn create_liquidation(pool: &mut Pool, user: Address, liq_data: LiquidationMetadata) -> (r: Result<AuctionData, PoolError>)
    requires
        old(pool).wf(),
    ensures
        final(pool).wf(),
        match liquidation_spec(*old(pool), user, liq_data) {
            Err(e) => r == Err::<AuctionData, PoolError>(e) && *final(pool) == *old(pool),
            Ok((bid, lot)) => r matches Ok(d) && d.bid@ == bid && d.lot@ == lot && d.block == old(pool).block
                && final(pool).auctions@ == old(pool).auctions@.insert(auction_key(0, user), stored(*final(pool), 0, user))
                && stored(*final(pool), 0, user)@ == d@ && same_but_auctions(*final(pool), *old(pool)),
        },
        r matches Ok(d) ==> {
            &&& forall|a: int, b: int| 0 <= a < b < d.bid@.len() ==> #[trigger] d.bid@[a].0 != #[trigger] d.bid@[b].0
            &&& forall|a: int, b: int| 0 <= a < b < d.lot@.len() ==> #[trigger] d.lot@[a].0 != #[trigger] d.lot@[b].0
            &&& lot_value(*old(pool), d.lot@, d.lot@.len() as int) matches Some(v) && user_position(*old(pool), user) matches Some(
                (c, l),
            ) && v <= c && c < l
        },
{
    broadcast use vstd::std_specs::hash::group_hash_axioms;

    let key = make_auction_key(AuctionType::UserLiquidation.to_u32(), user);
    if pool.auctions.contains_key(&key) {
        return Err(PoolError::BadRequest);
    }
    let action = UserAction::none();
    let loaded = match pool.positions.get(&user) {
        Some(p) => UserData::load(pool, p, &action),
        None => {
            let empty = Positions::empty();
            proof {
                lemma_inactive_user_values_zero(*pool, empty, action);
            }
            UserData::load(pool, &empty, &action)
        },
    };
    let data = match loaded {
        Err(e) => {
            return Err(e);
        },
        Ok(d) => d,
    };
    if data.collateral_base >= data.liability_base {
        return Err(PoolError::InvalidHf);
    }
    let bid = match build_liq_side(pool, user, &liq_data.liability, true) {
        Err(e) => {
            return Err(e);
        },
        Ok(b) => b,
    };
    let lot = match build_liq_side(pool, user, &liq_data.collateral, false) {
        Err(e) => {
            return Err(e);
        },
        Ok(l) => l,
    };
    if bid.len() == 0 || lot.len() == 0 {
        return Err(PoolError::BadRequest);
    }
    proof {
        lemma_liq_side_positive(*pool, user, liq_data.liability@, true, liq_data.liability@.len() as int);
        lemma_liq_side_positive(*pool, user, liq_data.collateral@, false, liq_data.collateral@.len() as int);
    }
    let mut total: Option<i128> = Some(0);
    let mut k: usize = 0;
    while k < lot.len()
        invariant
            pool.wf(),
            k <= lot@.len(),
            forall|j: int| 0 <= j < lot@.len() ==> (#[trigger] lot@[j]).0 < pool.reserves@.len(),
            as_int(total) == lot_value(*pool, lot@, k as int),
        decreases lot@.len() - k,
    {
        let (index, amount) = lot[k];
        let value = value_collateral(&pool.reserves[index as usize], amount, pool.prices[index as usize]);
        total = match (total, value) {
            (Some(t), Some(v)) => t.checked_add(v),
            _ => None,
        };
        k = k + 1;
    }
    match total {
        None => {
            return Err(PoolError::ArithmeticOverflow);
        },
        Some(v) => {
            if v > data.collateral_base {
                return Err(PoolError::BadRequest);
            }
        },
    }
    let auction_data = AuctionData { bid, lot, block: pool.block };
    let record = auction_data.duplicate();
    pool.auctions.insert(key, record);
    Ok(auction_data)
}

/// What an auction of `auction_type` (bad debt or interest) takes from reserve
/// `i`: the backstop's d-tokens, or the backstop's interest credit in underlying.
pub open spec fn protocol_amount(pool: Pool, auction_type: u32, i: int) -> int {
    if auction_type == 1 {
        pool.liability_in(pool.backstop, i)
    } else {
        pool.backstop_credit@[i] as int
    }
}

/// The base-unit value of that amount at the oracle price, rounded down.
pub open spec fn protocol_value(pool: Pool, auction_type: u32, i: int) -> Option<int> {
    let a = protocol_amount(pool, auction_type, i);
    let price = pool.prices@[i] as int;
    if auction_type == 1 {
        match asset_from_d(pool.reserves@[i], a) {
            Some(u) => mul_div_floor(u, price, SCALAR_7 as int),
            None => None,
        }
    } else {
        mul_div_floor(a, price, SCALAR_7 as int)
    }
}

/// The entries (reserve index, amount) of the first `n` reserves with a positive amount.
pub open spec fn protocol_entries(pool: Pool, auction_type: u32, n: int) -> Seq<(u32, i128)>
    decreases n,
{
    if n <= 0 {
        Seq::empty()
    } else if protocol_amount(pool, auction_type, n - 1) > 0 {
        protocol_entries(pool, auction_type, n - 1).push(((n - 1) as u32, protocol_amount(pool, auction_type, n - 1) as i128))
    } else {
        protocol_entries(pool, auction_type, n - 1)
    }
}

/// The summed base-unit value of those entries, `None` on overflow.
pub open spec fn protocol_total(pool: Pool, auction_type: u32, n: int) -> Option<int>
    decreases n,
{
    if n <= 0 {
        Some(0)
    } else if protocol_amount(pool, auction_type, n - 1) > 0 {
        add_opt(protocol_total(pool, auction_type, n - 1), protocol_value(pool, auction_type, n - 1))
    } else {
        protocol_total(pool, auction_type, n - 1)
    }
}

/// What creating an auction through the generic entry point gives: the (bid,
/// lot) of a bad-debt or interest auction on the backstop, or why it is refused.
/// A bad-debt auction bids the backstop's d-tokens for their base-unit value in
/// backstop tokens; an interest auction bids that value for the credit. The
/// backstop token side sits at the index past the last reserve.
pub open spec fn create_spec(pool: Pool, auction_type: u32) -> Result<(Seq<(u32, i128)>, Seq<(u32, i128)>), PoolError> {
    let n = pool.reserves@.len() as int;
    if auction_type >= 3 || auction_type == 0 || pool.has_auction_spec(auction_type, pool.backstop) {
        Err(PoolError::BadRequest)
    } else if protocol_entries(pool, auction_type, n).len() == 0 {
        Err(PoolError::BadRequest)
    } else {
        match protocol_total(pool, auction_type, n) {
            None => Err(PoolError::ArithmeticOverflow),
            Some(v) => {
                let backstop_side = seq![(n as u32, v as i128)];
                if auction_type == 1 {
                    Ok((protocol_entries(pool, auction_type, n), backstop_side))
                } else {
                    Ok((backstop_side, protocol_entries(pool, auction_type, n)))
                }
            },
        }
    }
}

proof fn lemma_protocol_total_nonnegative(pool: Pool, auction_type: u32, n: int)
    requires
        pool.wf(),
        n <= pool.reserves@.len(),
        protocol_total(pool, auction_type, n) is Some,
    ensures
        protocol_total(pool, auction_type, n)->0 >= 0,
        forall|k: int| 0 <= k < protocol_entries(pool, auction_type, n).len() ==> (#[trigger] protocol_entries(
            pool,
            auction_type,
            n,
        )[k]).1 > 0,
    decreases n,
{
    if n > 0 {
        let i = n - 1;
        if protocol_amount(pool, auction_type, i) > 0 {
            assert(protocol_total(pool, auction_type, i) is Some);
            lemma_protocol_total_nonnegative(pool, auction_type, i);
            let a = protocol_amount(pool, auction_type, i);
            let price = pool.prices@[i] as int;
            let r = pool.reserves@[i];
            assert(i128::MIN <= a <= i128::MAX);
            let s = protocol_entries(pool, auction_type, n);
            assert(s == protocol_entries(pool, auction_type, i).push((i as u32, a as i128)));
            assert(s[s.len() - 1].1 > 0);
            assert(price > 0 && r.data.d_rate > 0);
            if auction_type == 1 {
                let u = (a * r.data.d_rate + SCALAR_9 - 1) / (SCALAR_9 as int);
                assert(u >= 0) by (nonlinear_arith)
                    requires u == (a * r.data.d_rate + SCALAR_9 - 1) / (SCALAR_9 as int), a > 0, r.data.d_rate > 0;
                assert(u * price / (SCALAR_7 as int) >= 0) by (nonlinear_arith)
                    requires u >= 0, price > 0;
            } else {
                assert(a * price / (SCALAR_7 as int) >= 0) by (nonlinear_arith)
                    requires a > 0, price > 0;
            }
        } else {
            lemma_protocol_total_nonnegative(pool, auction_type, i);
        }
    }
}

/// Creates a bad-debt or interest auction on the backstop and stores it at the
/// pool's current block.
///
/// Fails with `BadRequest` for an unknown type, for a user liquidation (which
/// has its own entry point), where such an auction runs already or where there
/// is nothing to auction, and with `ArithmeticOverflow` where valuing it
/// overflows; the pool is then unchanged.
pub fn create(pool: &mut Pool, auction_type: u32) -> (r: Result<AuctionData, PoolError>)
    requires
        old(pool).wf(),
    ensures
        final(pool).wf(),
        auction_type == 0 ==> r == Err::<AuctionData, PoolError>(PoolError::BadRequest),
        match create_spec(*old(pool), auction_type) {
            Err(e) => r == Err::<AuctionData, PoolError>(e) && *final(pool) == *old(pool),
            Ok((bid, lot)) => r matches Ok(d) && d.bid@ == bid && d.lot@ == lot && d.block == old(pool).block
                && final(pool).auctions@ == old(pool).auctions@.insert(
                auction_key(auction_type, old(pool).backstop),
                stored(*final(pool), auction_type, old(pool).backstop),
            ) && stored(*final(pool), auction_type, old(pool).backstop)@ == d@ && same_but_auctions(
                *final(pool),
                *old(pool),
            ),
        },
{
    broadcast use vstd::std_specs::hash::group_hash_axioms;

    if auction_type >= 3 || auction_type == 0 {
        return Err(PoolError::BadRequest);
    }
    let backstop = pool.backstop;
    let key = make_auction_key(auction_type, backstop);
    if pool.auctions.contains_key(&key) {
        return Err(PoolError::BadRequest);
    }
    let n = pool.reserves.len();
    let mut entries: Vec<(u32, i128)> = Vec::new();
    let mut total: Option<i128> = Some(0);
    let mut i: usize = 0;
    while i < n
        invariant
            pool.wf(),
            n == pool.reserves@.len(),
            i <= n,
            1 <= auction_type < 3,
            backstop == pool.backstop,
            entries@ == protocol_entries(*pool, auction_type, i as int),
            as_int(total) == protocol_total(*pool, auction_type, i as int),
        decreases n - i,
    {
        let index = i as u32;
        let amount = if auction_type == 1 {
            pool.get_liability(backstop, index)
        } else {
            pool.backstop_credit[i]
        };
        if amount > 0 {
            let reserve = &pool.reserves[i];
            let price = pool.prices[i];
            let value = if auction_type == 1 {
                match reserve.to_asset_from_d_token(amount) {
                    Some(u) => mul_floor(u, price, SCALAR_7),
                    None => None,
                }
            } else {
                mul_floor(amount, price, SCALAR_7)
            };
            assert(as_int(value) == protocol_value(*pool, auction_type, i as int));
            total = match (total, value) {
                (Some(t), Some(v)) => t.checked_add(v),
                _ => None,
            };
            entries.push((index, amount));
        }
        i = i + 1;
    }
    if entries.len() == 0 {
        return Err(PoolError::BadRequest);
    }
    let value = match total {
        None => {
            return Err(PoolError::ArithmeticOverflow);
        },
        Some(v) => v,
    };
    proof {
        lemma_protocol_total_nonnegative(*pool, auction_type, n as int);
    }
    let backstop_side = vec![(n as u32, value)];
    let auction_data = if auction_type == 1 {
        AuctionData { bid: entries, lot: backstop_side, block: pool.block }
    } else {
        AuctionData { bid: backstop_side, lot: entries, block: pool.block }
    };
    let record = auction_data.duplicate();
    pool.auctions.insert(key, record);
    Ok(auction_data)
}

} // verus!
