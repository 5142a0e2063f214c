use std::collections::HashMap;
use vstd::prelude::*;

use crate::pool::Address;
use crate::reserve_usage::{ReserveUsage, MAX_RESERVES};

verus! {

/// Why a token operation is refused.
#[derive(Clone, Copy, Debug, PartialEq, Eq, Structural)]
pub enum TokenError {
    AlreadyInitializedError,
    NegativeAmountError,
    BalanceError,
    AllowanceError,
    NotImplemented,
    NotAuthorized,
    CollateralizedError,
}

/// The underlying asset a b-token stands for, and its reserve's index.
#[derive(Clone, Copy, Debug, PartialEq, Eq, Structural)]
pub struct Asset {
    pub id: Address,
    pub res_index: u32,
}

/// A pool token's ledger: the pool that administers it, the asset it stands
/// for, its description, balances, and allowances keyed by `allowance_key`.
pub struct Token {
    pub pool: Option<Address>,
    pub asset: Option<Asset>,
    pub decimals: u32,
    pub name: Vec<u8>,
    pub symbol: Vec<u8>,
    pub balances: HashMap<Address, i128>,
    pub allowances: HashMap<u128, i128>,
}

/// The key of the allowance `from` gives `spender`.
pub open spec fn allowance_key(from: Address, spender: Address) -> u128 {
    (from as int * 0x1_0000_0000_0000_0000 + spender as int) as u128
}

/// The entry of `k` in `m`, zero where there is none.
pub open spec fn amount_in<K>(m: Map<K, i128>, k: K) -> int {
    if m.contains_key(k) {
        m[k] as int
    } else {
        0
    }
}

/// Whether `usage` marks the token's reserve as collateral.
pub open spec fn is_collateralized(asset: Option<Asset>, usage: ReserveUsage) -> bool {
    match asset {
        Some(a) => a.res_index < MAX_RESERVES && usage.is_supply_spec(a.res_index),
        None => false,
    }
}

/// The balances after `amount` passes from `from` to `to`.
pub open spec fn moved_balances(m: Map<Address, i128>, from: Address, to: Address, amount: int) -> Map<Address, i128> {
    if from == to {
        m
    } else {
        m.insert(from, (amount_in(m, from) - amount) as i128).insert(to, (amount_in(m, to) + amount) as i128)
    }
}

/// Whether `amount` can pass from `from` to `to` within the balances.
pub open spec fn can_move(m: Map<Address, i128>, from: Address, to: Address, amount: int) -> bool {
    amount <= amount_in(m, from) && (from == to || amount_in(m, to) + amount <= i128::MAX)
}

impl Token {
    pub open spec fn balance_spec(&self, id: Address) -> int {
        amount_in(self.balances@, id)
    }

    pub open spec fn allowance_spec(&self, from: Address, spender: Address) -> int {
        amount_in(self.allowances@, allowance_key(from, spender))
    }

    /// The other fields stay.
    pub open spec fn same_setup(&self, other: &Token) -> bool {
        &&& self.pool == other.pool
        &&& self.asset == other.asset
        &&& self.decimals == other.decimals
        &&& self.name@ == other.name@
        &&& self.symbol@ == other.symbol@
    }

    /// An uninitialized token with no balances.
    pub fn new() -> (r: Token)
        ensures
            r.pool is None,
            r.asset is None,
            r.balances@ == Map::<Address, i128>::empty(),
            r.allowances@ == Map::<u128, i128>::empty(),
    {
        Token {
            pool: None,
            asset: None,
            decimals: 0,
            name: Vec::new(),
            symbol: Vec::new(),
            balances: HashMap::new(),
            allowances: HashMap::new(),
        }
    }

    fn make_allowance_key(from: Address, spender: Address) -> (r: u128)
        ensures
            r == allowance_key(from, spender),
    {
        (from as u128) * 0x1_0000_0000_0000_0000 + (spender as u128)
    }

    /// Sets the pool that administers the token and its description.
    ///
    /// Fails with `AlreadyInitializedError`, changing nothing, once a pool is set.
    pub fn initialize(&mut self, admin: Address, decimal: u32, name: Vec<u8>, symbol: Vec<u8>) -> (r: Result<(), TokenError>)
        ensures
            old(self).pool is Some ==> r == Err::<(), TokenError>(TokenError::AlreadyInitializedError)
                && final(self).pool == old(self).pool && final(self).decimals == old(self).decimals
                && final(self).name@ == old(self).name@ && final(self).symbol@ == old(self).symbol@,
            old(self).pool is None ==> r == Ok::<(), TokenError>(()) && final(self).pool == Some(admin)
                && final(self).decimals == decimal && final(self).name@ == name@ && final(self).symbol@ == symbol@,
            final(self).asset == old(self).asset,
            final(self).balances@ == old(self).balances@,
            final(self).allowances@ == old(self).allowances@,
    {
        if self.pool.is_some() {
            return Err(TokenError::AlreadyInitializedError);
        }
        self.pool = Some(admin);
        self.decimals = decimal;
        self.name = name;
        self.symbol = symbol;
        Ok(())
    }

    /// `id`'s balance.
    pub fn balance(&self, id: Address) -> (r: i128)
        ensures
            r == self.balance_spec(id),
    {
        broadcast use vstd::std_specs::hash::group_hash_axioms;

        match self.balances.get(&id) {
            Some(b) => *b,
            None => 0,
        }
    }

    /// What `id` can spend: its balance.
    pub fn spendable(&self, id: Address) -> (r: i128)
        ensures
            r == self.balance_spec(id),
    {
        self.balance(id)
    }

    /// What `spender` may spend of `from`'s balance.
    pub fn allowance(&self, from: Address, spender: Address) -> (r: i128)
        ensures
            r == self.allowance_spec(from, spender),
    {
        broadcast use vstd::std_specs::hash::group_hash_axioms;

        match self.allowances.get(&Self::make_allowance_key(from, spender)) {
            Some(a) => *a,
            None => 0,
        }
    }

    pub fn decimals(&self) -> (r: u32)
        ensures
            r == self.decimals,
    {
        self.decimals
    }

    /// Creates `amount` tokens for `to`.
    ///
    /// Fails with `NegativeAmountError` for a negative amount and with
    /// `BalanceError` where the balance would overflow; nothing changes then.
    pub fn mint(&mut self, to: Address, amount: i128) -> (r: Result<(), TokenError>)
        ensures
            amount < 0 ==> r == Err::<(), TokenError>(TokenError::NegativeAmountError),
            amount >= 0 && old(self).balance_spec(to) + amount > i128::MAX ==> r == Err::<(), TokenError>(
                TokenError::BalanceError,
            ),
            amount >= 0 && old(self).balance_spec(to) + amount <= i128::MAX ==> r == Ok::<(), TokenError>(())
                && final(self).balances@ == old(self).balances@.insert(to, (old(self).balance_spec(to) + amount) as i128),
            r is Err ==> final(self).balances@ == old(self).balances@,
            final(self).allowances@ == old(self).allowances@,
            final(self).same_setup(old(self)),
    {
        broadcast use vstd::std_specs::hash::group_hash_axioms;

        if amount < 0 {
            return Err(TokenError::NegativeAmountError);
        }
        let balance = self.balance(to);
        match balance.checked_add(amount) {
            None => Err(TokenError::BalanceError),
            Some(b) => {
                self.balances.insert(to, b);
                Ok(())
            },
        }
    }

    /// Takes `amount` tokens back from `from`.
    ///
    /// Fails with `NegativeAmountError` for a negative amount and with
    /// `BalanceError` where `from` holds less; nothing changes then.
    pub fn clawback(&mut self, from: Address, amount: i128) -> (r: Result<(), TokenError>)
        ensures
            amount < 0 ==> r == Err::<(), TokenError>(TokenError::NegativeAmountError),
            amount >= 0 && amount > old(self).balance_spec(from) ==> r == Err::<(), TokenError>(TokenError::BalanceError),
            amount >= 0 && amount <= old(self).balance_spec(from) ==> r == Ok::<(), TokenError>(())
                && final(self).balances@ == old(self).balances@.insert(from, (old(self).balance_spec(from) - amount) as i128),
            r is Err ==> final(self).balances@ == old(self).balances@,
            final(self).allowances@ == old(self).allowances@,
            final(self).same_setup(old(self)),
    {
        broadcast use vstd::std_specs::hash::group_hash_axioms;

        if amount < 0 {
            return Err(TokenError::NegativeAmountError);
        }
        let balance = self.balance(from);
        if amount > balance {
            return Err(TokenError::BalanceError);
        }
        self.balances.insert(from, balance - amount);
        Ok(())
    }

    /// Raises what `spender` may spend of `from`'s balance by `amount`.
    ///
    /// Fails with `NegativeAmountError` for a negative amount and with
    /// `AllowanceError` where the allowance would overflow; nothing changes then.
    pub fn increase_allowance(&mut self, from: Address, spender: Address, amount: i128) -> (r: Result<(), TokenError>)
        ensures
            amount < 0 ==> r == Err::<(), TokenError>(TokenError::NegativeAmountError),
            amount >= 0 && old(self).allowance_spec(from, spender) + amount > i128::MAX ==> r == Err::<(), TokenError>(
                TokenError::AllowanceError,
            ),
            amount >= 0 && old(self).allowance_spec(from, spender) + amount <= i128::MAX ==> r == Ok::<(), TokenError>(())
                && final(self).allowances@ == old(self).allowances@.insert(
                allowance_key(from, spender),
                (old(self).allowance_spec(from, spender) + amount) as i128,
            ),
            r is Err ==> final(self).allowances@ == old(self).allowances@,
            final(self).balances@ == old(self).balances@,
            final(self).same_setup(old(self)),
    {
        broadcast use vstd::std_specs::hash::group_hash_axioms;

        if amount < 0 {
            return Err(TokenError::NegativeAmountError);
        }
        let allowance = self.allowance(from, spender);
        match allowance.checked_add(amount) {
            None => Err(TokenError::AllowanceError),
            Some(a) => {
                self.allowances.insert(Self::make_allowance_key(from, spender), a);
                Ok(())
            },
        }
    }

    /// Lowers what `spender` may spend of `from`'s balance by `amount`.
    ///
    /// Fails with `NegativeAmountError` for a negative amount and with
    /// `AllowanceError` where the allowance is smaller; nothing changes then.
    pub fn decrease_allowance(&mut self, from: Address, spender: Address, amount: i128) -> (r: Result<(), TokenError>)
        ensures
            amount < 0 ==> r == Err::<(), TokenError>(TokenError::NegativeAmountError),
            amount >= 0 && amount > old(self).allowance_spec(from, spender) ==> r == Err::<(), TokenError>(
                TokenError::AllowanceError,
            ),
            amount >= 0 && amount <= old(self).allowance_spec(from, spender) ==> r == Ok::<(), TokenError>(())
                && final(self).allowances@ == old(self).allowances@.insert(
                allowance_key(from, spender),
                (old(self).allowance_spec(from, spender) - amount) as i128,
            ),
            r is Err ==> final(self).allowances@ == old(self).allowances@,
            final(self).balances@ == old(self).balances@,
            final(self).same_setup(old(self)),
    {
        broadcast use vstd::std_specs::hash::group_hash_axioms;

        if amount < 0 {
            return Err(TokenError::NegativeAmountError);
        }
        let allowance = self.allowance(from, spender);
        if amount > allowance {
            return Err(TokenError::AllowanceError);
        }
        self.allowances.insert(Self::make_allowance_key(from, spender), allowance - amount);
        Ok(())
    }

    /// Fails with `CollateralizedError` where `from_usage` marks this token's reserve as collateral.
    fn require_noncollateralized(&self, from_usage: &ReserveUsage) -> (r: Result<(), TokenError>)
        ensures
            r is Err <==> is_collateralized(self.asset, *from_usage),
            r is Err ==> r == Err::<(), TokenError>(TokenError::CollateralizedError),
    {
        match self.asset {
            Some(asset) => {
                if asset.res_index < MAX_RESERVES && from_usage.is_collateral(asset.res_index) {
                    Err(TokenError::CollateralizedError)
                } else {
                    Ok(())
                }
            },
            None => Ok(()),
        }
    }

    fn move_balance(&mut self, from: Address, to: Address, amount: i128) -> (r: Result<(), TokenError>)
        requires
            amount >= 0,
        ensures
            can_move(old(self).balances@, from, to, amount as int) ==> r == Ok::<(), TokenError>(())
                && final(self).balances@ == moved_balances(old(self).balances@, from, to, amount as int),
            !can_move(old(self).balances@, from, to, amount as int) ==> r == Err::<(), TokenError>(TokenError::BalanceError)
                && final(self).balances@ == old(self).balances@,
            final(self).allowances@ == old(self).allowances@,
            final(self).same_setup(old(self)),
    {
        broadcast use vstd::std_specs::hash::group_hash_axioms;

        let from_balance = self.balance(from);
        if amount > from_balance {
            return Err(TokenError::BalanceError);
        }
        if from == to {
            return Ok(());
        }
        let to_balance = self.balance(to);
        match to_balance.checked_add(amount) {
            None => Err(TokenError::BalanceError),
            Some(b) => {
                self.balances.insert(from, from_balance - amount);
                self.balances.insert(to, b);
                Ok(())
            },
        }
    }

    /// Moves `amount` tokens from `from` to `to`; `from_usage` is `from`'s
    /// reserve usage in the pool, as the pool reports it.
    ///
    /// Fails with `NegativeAmountError` for a negative amount, with
    /// `CollateralizedError` where `from` uses the token as collateral, and with
    /// `BalanceError` where `from` holds less or `to`'s balance would overflow;
    /// nothing changes then.
    pub fn transfer(&mut self, from: Address, to: Address, amount: i128, from_usage: &ReserveUsage) -> (r: Result<(), TokenError>)
        ensures
            amount < 0 ==> r == Err::<(), TokenError>(TokenError::NegativeAmountError),
            amount >= 0 && is_collateralized(old(self).asset, *from_usage) ==> r == Err::<(), TokenError>(
                TokenError::CollateralizedError,
            ),
            amount >= 0 && !is_collateralized(old(self).asset, *from_usage) ==> if can_move(
                old(self).balances@,
                from,
                to,
                amount as int,
            ) {
                r == Ok::<(), TokenError>(()) && final(self).balances@ == moved_balances(old(self).balances@, from, to, amount as int)
            } else {
                r == Err::<(), TokenError>(TokenError::BalanceError)
            },
            r is Err ==> final(self).balances@ == old(self).balances@,
            final(self).allowances@ == old(self).allowances@,
            final(self).same_setup(old(self)),
    {
        if amount < 0 {
            return Err(TokenError::NegativeAmountError);
        }
        match self.require_noncollateralized(from_usage) {
            Err(e) => {
                return Err(e);
            },
            Ok(()) => {},
        }
        self.move_balance(from, to, amount)
    }

    /// Moves `amount` tokens from `from` to `to` on behalf of `spender`, using up
    /// as much of the allowance `from` gave `spender`.
    ///
    /// Fails as `transfer` does, and with `AllowanceError` where the allowance is
    /// smaller; nothing changes then.
    pub fn transfer_from(
        &mut self,
        spender: Address,
        from: Address,
        to: Address,
        amount: i128,
        from_usage: &ReserveUsage,
    ) -> (r: Result<(), TokenError>)
        ensures
            amount < 0 ==> r == Err::<(), TokenError>(TokenError::NegativeAmountError),
            amount >= 0 && is_collateralized(old(self).asset, *from_usage) ==> r == Err::<(), TokenError>(
                TokenError::CollateralizedError,
            ),
            amount >= 0 && !is_collateralized(old(self).asset, *from_usage) && amount > old(self).allowance_spec(from, spender)
                ==> r == Err::<(), TokenError>(TokenError::AllowanceError),
            amount >= 0 && !is_collateralized(old(self).asset, *from_usage) && amount <= old(self).allowance_spec(
                from,
                spender,
            ) ==> if can_move(old(self).balances@, from, to, amount as int) {
                r == Ok::<(), TokenError>(()) && final(self).balances@ == moved_balances(old(self).balances@, from, to, amount as int)
                    && final(self).allowances@ == old(self).allowances@.insert(
                    allowance_key(from, spender),
                    (old(self).allowance_spec(from, spender) - amount) as i128,
                )
            } else {
                r == Err::<(), TokenError>(TokenError::BalanceError)
            },
            r is Err ==> final(self).balances@ == old(self).balances@ && final(self).allowances@ == old(self).allowances@,
            final(self).same_setup(old(self)),
    {
        broadcast use vstd::std_specs::hash::group_hash_axioms;

        if amount < 0 {
            return Err(TokenError::NegativeAmountError);
        }
        match self.require_noncollateralized(from_usage) {
            Err(e) => {
                return Err(e);
            },
            Ok(()) => {},
        }
        let allowance = self.allowance(from, spender);
        if amount > allowance {
            return Err(TokenError::AllowanceError);
        }
        let balance_ok = {
            let from_balance = self.balance(from);
            amount <= from_balance && (from == to || self.balance(to).checked_add(amount).is_some())
        };
        if !balance_ok {
            return Err(TokenError::BalanceError);
        }
        self.allowances.insert(Self::make_allowance_key(from, spender), allowance - amount);
        self.move_balance(from, to, amount)
    }

    /// Not offered by pool tokens: always fails with `NotImplemented`.
    pub fn burn(&mut self, from: Address, amount: i128) -> (r: Result<(), TokenError>)
        ensures
            r == Err::<(), TokenError>(TokenError::NotImplemented),
    {
        Err(TokenError::NotImplemented)
    }
}

/// The b-token's own operations on a token ledger.
pub struct BToken;

impl BToken {
    /// The pool that administers the token.
    pub fn pool(token: &Token) -> (r: Option<Address>)
        ensures
            r == token.pool,
    {
        token.pool
    }

    /// The asset the token stands for.
    pub fn asset(token: &Token) -> (r: Option<Asset>)
        ensures
            r == token.asset,
    {
        token.asset
    }

    /// Records the asset behind the token and its reserve index; only the pool
    /// that administers the token may do it, and only once.
    ///
    /// Fails with `NotAuthorized` where `admin` is not that pool and with
    /// `AlreadyInitializedError` where an asset is recorded; nothing changes then.
    pub fn initialize_asset(token: &mut Token, admin: Address, asset: Address, index: u32) -> (r: Result<(), TokenError>)
        ensures
            old(token).pool != Some(admin) ==> r == Err::<(), TokenError>(TokenError::NotAuthorized),
            old(token).pool == Some(admin) && old(token).asset is Some ==> r == Err::<(), TokenError>(
                TokenError::AlreadyInitializedError,
            ),
            old(token).pool == Some(admin) && old(token).asset is None ==> r == Ok::<(), TokenError>(())
                && final(token).asset == Some(Asset { id: asset, res_index: index }),
            r is Err ==> final(token).asset == old(token).asset,
            final(token).pool == old(token).pool,
            final(token).balances@ == old(token).balances@,
            final(token).allowances@ == old(token).allowances@,
    {
        match token.pool {
            Some(p) => {
                if p != admin {
                    return Err(TokenError::NotAuthorized);
                }
            },
            None => {
                return Err(TokenError::NotAuthorized);
            },
        }
        if token.asset.is_some() {
            return Err(TokenError::AlreadyInitializedError);
        }
        token.asset = Some(Asset { id: asset, res_index: index });
        token.pool = Some(admin);
        Ok(())
    }
}

} // verus!
