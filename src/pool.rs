use std::collections::HashMap;
use vstd::prelude::*;

use crate::auction::AuctionData;
use crate::errors::PoolError;
use crate::reserve::Reserve;
use crate::reserve_usage::{bit_set, liability_bit, supply_bit, ReserveUsage, MAX_RESERVES};

verus! {

/// An account or contract, by its identifier.
pub type Address = u64;

/// A user's holdings in the pool: which reserves it is active in, and its
/// b-token and d-token balances by reserve index (a missing entry reads as zero).
#[derive(Clone, Debug)]
pub struct Positions {
    pub config: ReserveUsage,
    pub collateral: Vec<i128>,
    pub liabilities: Vec<i128>,
}

/// The entry at `i`, or zero past the end.
pub open spec fn entry_or_zero(v: Seq<i128>, i: int) -> int {
    if 0 <= i < v.len() {
        v[i] as int
    } else {
        0
    }
}

impl Positions {
    /// The user's b-tokens of reserve `index`.
    pub open spec fn collateral_of(&self, index: int) -> int {
        entry_or_zero(self.collateral@, index)
    }

    /// The user's d-tokens of reserve `index`.
    pub open spec fn liability_of(&self, index: int) -> int {
        entry_or_zero(self.liabilities@, index)
    }

    /// Positions with no flag set and no balance.
    pub fn empty() -> (r: Self)
        ensures
            r.config.config == 0,
            r.collateral@.len() == 0,
            r.liabilities@.len() == 0,
    {
        Positions { config: ReserveUsage { config: 0 }, collateral: Vec::new(), liabilities: Vec::new() }
    }

    /// The user's b-tokens of reserve `index`.
    pub fn get_collateral(&self, index: u32) -> (r: i128)
        ensures
            r == self.collateral_of(index as int),
    {
        if (index as usize) < self.collateral.len() {
            self.collateral[index as usize]
        } else {
            0
        }
    }

    /// The user's d-tokens of reserve `index`.
    pub fn get_liabilities(&self, index: u32) -> (r: i128)
        ensures
            r == self.liability_of(index as int),
    {
        if (index as usize) < self.liabilities.len() {
            self.liabilities[index as usize]
        } else {
            0
        }
    }
}

/// `s` with entry `i` set to `x`, zeros filling any gap past the end.
pub open spec fn set_seq(s: Seq<i128>, i: int, x: i128) -> Seq<i128> {
    if i < s.len() {
        s.update(i, x)
    } else {
        s + Seq::new((i - s.len()) as nat, |j: int| 0i128) + seq![x]
    }
}

proof fn lemma_set_seq(s: Seq<i128>, i: int, x: i128)
    requires
        0 <= i,
    ensures
        forall|j: int| #![trigger entry_or_zero(set_seq(s, i, x), j)]
            entry_or_zero(set_seq(s, i, x), j) == if j == i {
                x as int
            } else {
                entry_or_zero(s, j)
            },
{
    let t = set_seq(s, i, x);
    assert forall|j: int| #![trigger entry_or_zero(t, j)]
        entry_or_zero(t, j) == if j == i {
            x as int
        } else {
            entry_or_zero(s, j)
        } by {
        if i >= s.len() && 0 <= j < t.len() && j != i && j >= s.len() {
            assert(t[j] == 0i128);
        }
    }
}

/// Sets entry `i` of `v` to `x`, growing `v` with zeros where it is too short.
pub fn set_entry(v: &mut Vec<i128>, i: usize, x: i128)
    requires
        i < usize::MAX,
    ensures
        final(v)@ == set_seq(old(v)@, i as int, x),
        forall|j: int| #![trigger entry_or_zero(final(v)@, j)]
            entry_or_zero(final(v)@, j) == if j == i {
                x as int
            } else {
                entry_or_zero(old(v)@, j)
            },
{
    proof {
        lemma_set_seq(old(v)@, i as int, x);
    }
    if i < v.len() {
        v.set(i, x);
    } else {
        let ghost start = v@;
        while v.len() < i
            invariant
                start.len() <= v@.len() <= i,
                v@ == start + Seq::new((v@.len() - start.len()) as nat, |j: int| 0i128),
            decreases i - v@.len(),
        {
            v.push(0);
        }
        v.push(x);
        assert(v@ =~= set_seq(start, i as int, x));
    }
}

/// The key of the auction of `auction_type` on `user`.
pub open spec fn auction_key(auction_type: u32, user: Address) -> u128 {
    (auction_type as int * 0x1_0000_0000_0000_0000 + user as int) as u128
}

/// The key of the auction of `auction_type` on `user`.
pub fn make_auction_key(auction_type: u32, user: Address) -> (r: u128)
    ensures
        r == auction_key(auction_type, user),
{
    (auction_type as u128) * 0x1_0000_0000_0000_0000 + (user as u128)
}

/// The pool's state: its reserves in index order, each one's oracle price in
/// the base unit (scaled by `SCALAR_7`), the backstop and its token, interest
/// held for the backstop per reserve, the current ledger sequence number, each
/// user's positions and the running auctions.
///
/// Operations on the pool read the reserves as stored; bringing each reserve
/// up to the current block (`Reserve::accrue`) is the caller's first step in
/// every invocation.
pub struct Pool {
    pub reserves: Vec<Reserve>,
    pub prices: Vec<i128>,
    pub backstop: Address,
    pub backstop_token: Address,
    pub backstop_credit: Vec<i128>,
    pub block: u32,
    pub positions: HashMap<Address, Positions>,
    pub auctions: HashMap<u128, AuctionData>,
}

impl Pool {
    /// One price and one credit per reserve, each reserve at its own index,
    /// few enough reserves for a `ReserveUsage`, and no auction created after
    /// the current block.
    pub open spec fn wf(&self) -> bool {
        &&& self.prices@.len() == self.reserves@.len()
        &&& self.backstop_credit@.len() == self.reserves@.len()
        &&& self.reserves@.len() <= MAX_RESERVES
        &&& forall|i: int| 0 <= i < self.reserves@.len() ==> (#[trigger] self.reserves@[i]).config.index == i
            && self.reserves@[i].wf() && self.prices@[i] > 0
        &&& forall|k: u128| #[trigger] self.auctions@.contains_key(k) ==> self.auctions@[k].block <= self.block
            && self.auctions@[k].amounts_nonnegative()
    }

    /// A pool over `reserves` with their `prices`, no positions, no auctions and
    /// no interest credit, at ledger block `block`; `None` where the reserves and
    /// prices do not form a well-formed pool.
    pub fn new(reserves: Vec<Reserve>, prices: Vec<i128>, backstop: Address, backstop_token: Address, block: u32) -> (r:
        Option<Pool>)
        ensures
            r is Some <==> {
                &&& prices@.len() == reserves@.len()
                &&& reserves@.len() <= MAX_RESERVES
                &&& forall|i: int| 0 <= i < reserves@.len() ==> (#[trigger] reserves@[i]).config.index == i
                    && reserves@[i].wf() && prices@[i] > 0
            },
            r matches Some(p) ==> {
                &&& p.wf()
                &&& p.reserves@ == reserves@
                &&& p.prices@ == prices@
                &&& p.backstop == backstop
                &&& p.backstop_token == backstop_token
                &&& p.block == block
                &&& p.positions@.is_empty()
                &&& p.auctions@.is_empty()
                &&& forall|i: int| 0 <= i < p.backstop_credit@.len() ==> p.backstop_credit@[i] == 0
            },
    {
        if prices.len() != reserves.len() || reserves.len() > MAX_RESERVES as usize {
            return None;
        }
        let mut backstop_credit: Vec<i128> = Vec::new();
        let mut i: usize = 0;
        while i < reserves.len()
            invariant
                prices@.len() == reserves@.len(),
                i <= reserves@.len(),
                backstop_credit@.len() == i,
                forall|j: int| 0 <= j < i ==> backstop_credit@[j] == 0,
                forall|j: int| 0 <= j < i ==> (#[trigger] reserves@[j]).config.index == j && reserves@[j].wf()
                    && prices@[j] > 0,
            decreases reserves@.len() - i,
        {
            let r = &reserves[i];
            if r.config.index as usize != i || r.data.b_rate <= 0 || r.data.d_rate <= 0 || r.config.l_factor == 0
                || prices[i] <= 0 {
                return None;
            }
            backstop_credit.push(0);
            i = i + 1;
        }
        Some(
            Pool {
                reserves,
                prices,
                backstop,
                backstop_token,
                backstop_credit,
                block,
                positions: HashMap::new(),
                auctions: HashMap::new(),
            },
        )
    }

    /// `user`'s d-tokens of reserve `index`.
    pub open spec fn liability_in(&self, user: Address, index: int) -> int {
        if self.positions@.contains_key(user) {
            self.positions@[user].liability_of(index)
        } else {
            0
        }
    }

    /// `user`'s b-tokens of reserve `index`.
    pub open spec fn collateral_in(&self, user: Address, index: int) -> int {
        if self.positions@.contains_key(user) {
            self.positions@[user].collateral_of(index)
        } else {
            0
        }
    }

    /// `user`'s reserve usage flags, none where it has no positions.
    pub open spec fn config_in(&self, user: Address) -> u128 {
        if self.positions@.contains_key(user) {
            self.positions@[user].config.config
        } else {
            0
        }
    }

    /// Whether an auction of `auction_type` on `user` is running.
    pub open spec fn has_auction_spec(&self, auction_type: u32, user: Address) -> bool {
        self.auctions@.contains_key(auction_key(auction_type, user))
    }

    /// Takes `user`'s positions out of the map, empty ones where it has none.
    fn take_positions(&mut self, user: Address) -> (r: Positions)
        ensures
            final(self).positions@ == old(self).positions@.remove(user),
            old(self).positions@.contains_key(user) ==> r == old(self).positions@[user],
            !old(self).positions@.contains_key(user) ==> r.config.config == 0 && r.collateral@.len()
                == 0 && r.liabilities@.len() == 0,
            final(self).reserves == old(self).reserves,
            final(self).prices == old(self).prices,
            final(self).backstop == old(self).backstop,
            final(self).backstop_token == old(self).backstop_token,
            final(self).backstop_credit == old(self).backstop_credit,
            final(self).block == old(self).block,
            final(self).auctions == old(self).auctions,
    {
        broadcast use vstd::std_specs::hash::group_hash_axioms;

        match self.positions.remove(&user) {
            Some(p) => p,
            None => Positions::empty(),
        }
    }

    /// `user`'s d-tokens of reserve `index`.
    pub fn get_liability(&self, user: Address, index: u32) -> (r: i128)
        ensures
            r == self.liability_in(user, index as int),
    {
        broadcast use vstd::std_specs::hash::group_hash_axioms;

        match self.positions.get(&user) {
            Some(p) => p.get_liabilities(index),
            None => 0,
        }
    }

    /// `user`'s b-tokens of reserve `index`.
    pub fn get_collateral(&self, user: Address, index: u32) -> (r: i128)
        ensures
            r == self.collateral_in(user, index as int),
    {
        broadcast use vstd::std_specs::hash::group_hash_axioms;

        match self.positions.get(&user) {
            Some(p) => p.get_collateral(index),
            None => 0,
        }
    }

    /// Sets `user`'s d-tokens of reserve `index` to `amount`, and its liability
    /// flag there to whether `amount` is positive; nothing else changes.
    pub fn set_liability(&mut self, user: Address, index: u32, amount: i128)
        requires
            index < MAX_RESERVES,
        ensures
            final(self).liability_in(user, index as int) == amount,
            forall|u: Address, i: int| #![trigger final(self).liability_in(u, i)]
                (u != user || i != index) ==> final(self).liability_in(u, i) == old(self).liability_in(u, i),
            forall|u: Address, i: int| #![trigger final(self).collateral_in(u, i)]
                final(self).collateral_in(u, i) == old(self).collateral_in(u, i),
            forall|u: Address| #![trigger final(self).config_in(u)]
                u != user ==> final(self).config_in(u) == old(self).config_in(u),
            (ReserveUsage { config: final(self).config_in(user) }).is_liability_spec(index) == (amount > 0),
            forall|j: u128| #![trigger bit_set(final(self).config_in(user), j)]
                j < 128 && j != liability_bit(index) ==> bit_set(final(self).config_in(user), j) == bit_set(
                    old(self).config_in(user),
                    j,
                ),
            final(self).positions@.dom() == old(self).positions@.dom().insert(user),
            final(self).reserves == old(self).reserves,
            final(self).prices == old(self).prices,
            final(self).backstop == old(self).backstop,
            final(self).backstop_token == old(self).backstop_token,
            final(self).backstop_credit == old(self).backstop_credit,
            final(self).block == old(self).block,
            final(self).auctions == old(self).auctions,
    {
        broadcast use vstd::std_specs::hash::group_hash_axioms;

        let mut p = self.take_positions(user);
        set_entry(&mut p.liabilities, index as usize, amount);
        p.config.set_liability(index, amount > 0);
        self.positions.insert(user, p);
    }

    /// Sets `user`'s b-tokens of reserve `index` to `amount`, and its supply flag
    /// there to whether `amount` is positive; nothing else changes.
    pub fn set_collateral(&mut self, user: Address, index: u32, amount: i128)
        requires
            index < MAX_RESERVES,
        ensures
            final(self).collateral_in(user, index as int) == amount,
            forall|u: Address, i: int| #![trigger final(self).collateral_in(u, i)]
                (u != user || i != index) ==> final(self).collateral_in(u, i) == old(self).collateral_in(u, i),
            forall|u: Address, i: int| #![trigger final(self).liability_in(u, i)]
                final(self).liability_in(u, i) == old(self).liability_in(u, i),
            forall|u: Address| #![trigger final(self).config_in(u)]
                u != user ==> final(self).config_in(u) == old(self).config_in(u),
            (ReserveUsage { config: final(self).config_in(user) }).is_supply_spec(index) == (amount > 0),
            forall|j: u128| #![trigger bit_set(final(self).config_in(user), j)]
                j < 128 && j != supply_bit(index) ==> bit_set(final(self).config_in(user), j) == bit_set(
                    old(self).config_in(user),
                    j,
                ),
            final(self).positions@.dom() == old(self).positions@.dom().insert(user),
            final(self).reserves == old(self).reserves,
            final(self).prices == old(self).prices,
            final(self).backstop == old(self).backstop,
            final(self).backstop_token == old(self).backstop_token,
            final(self).backstop_credit == old(self).backstop_credit,
            final(self).block == old(self).block,
            final(self).auctions == old(self).auctions,
    {
        broadcast use vstd::std_specs::hash::group_hash_axioms;

        let mut p = self.take_positions(user);
        set_entry(&mut p.collateral, index as usize, amount);
        p.config.set_supply(index, amount > 0);
        self.positions.insert(user, p);
    }

    /// Whether an auction of `auction_type` on `user` is running.
    pub fn has_auction(&self, auction_type: u32, user: Address) -> (r: bool)
        ensures
            r == self.has_auction_spec(auction_type, user),
    {
        broadcast use vstd::std_specs::hash::group_hash_axioms;

        self.auctions.contains_key(&make_auction_key(auction_type, user))
    }
}

} // verus!
