use std::collections::HashMap;
use vstd::prelude::*;

use crate::constants::SCALAR_7;
use crate::errors::PoolError;
use crate::fixed_math::{as_int, fits_i128, mul_div_floor, mul_floor};
use crate::reserve::Reserve;
use crate::reserve_usage::{liability_bit, supply_bit, ReserveUsage, MAX_RESERVES};

verus! {

/// A reserve token's share of the pool's emissions: the reserve, which of its
/// tokens (0: the d-token, otherwise the b-token) and the share, scaled by `SCALAR_7`.
#[derive(Clone, Copy, Debug, PartialEq, Eq, Structural)]
pub struct ReserveEmissionMetadata {
    pub res_index: u32,
    pub res_type: u32,
    pub share: u64,
}

/// Which reserve tokens receive emissions, and when the current cycle ends.
#[derive(Clone, Copy, Debug, PartialEq, Eq, Structural)]
pub struct PoolEmissionConfig {
    pub config: u128,
    pub last_time: u64,
}

/// A reserve token's emission rate and the end of the cycle it holds for.
#[derive(Clone, Copy, Debug, PartialEq, Eq, Structural)]
pub struct ReserveEmissionsConfig {
    pub expiration: u64,
    pub eps: u64,
}

/// A reserve token's accrued emission index and when it was last brought up to date.
#[derive(Clone, Copy, Debug, PartialEq, Eq, Structural)]
pub struct ReserveEmissionsData {
    pub index: i128,
    pub last_time: u64,
}

/// The pool's emission records, each reserve token addressed by its key
/// (`ReserveUsage::liability_key` or `ReserveUsage::supply_key`).
pub struct EmissionStore {
    pub pool_config: PoolEmissionConfig,
    /// Each emitting key's share of the pool's emissions.
    pub pool_emissions: HashMap<u32, u64>,
    pub configs: HashMap<u32, ReserveEmissionsConfig>,
    pub data: HashMap<u32, ReserveEmissionsData>,
}

/// The key of a metadata entry's reserve token.
pub open spec fn metadata_key(m: ReserveEmissionMetadata) -> u32 {
    if m.res_type == 0 {
        liability_bit(m.res_index) as u32
    } else {
        supply_bit(m.res_index) as u32
    }
}

/// The usage flags that the first `n` entries set.
pub open spec fn metadata_config(meta: Seq<ReserveEmissionMetadata>, n: int) -> u128
    decreases n,
{
    if n <= 0 {
        0
    } else {
        metadata_config(meta, n - 1) | (1u128 << (metadata_key(meta[n - 1]) as u128))
    }
}

/// The shares of the first `n` entries by key; a later entry for a key replaces an earlier one.
pub open spec fn metadata_shares(meta: Seq<ReserveEmissionMetadata>, n: int) -> Map<u32, u64>
    decreases n,
{
    if n <= 0 {
        Map::empty()
    } else {
        metadata_shares(meta, n - 1).insert(metadata_key(meta[n - 1]), meta[n - 1].share)
    }
}

/// The sum of the first `n` shares.
pub open spec fn share_sum(meta: Seq<ReserveEmissionMetadata>, n: int) -> int
    decreases n,
{
    if n <= 0 {
        0
    } else {
        share_sum(meta, n - 1) + meta[n - 1].share
    }
}

/// Sets which reserve tokens receive emissions and their shares; they apply
/// from the next `update_emissions`. The end of the current cycle stays.
///
/// Fails with `BadRequest`, changing nothing, where the shares add up to more than one.
pub fn set_pool_emissions(store: &mut EmissionStore, res_emission_metadata: &Vec<ReserveEmissionMetadata>) -> (r: Result<(), PoolError>)
    requires
        forall|k: int| 0 <= k < res_emission_metadata@.len() ==> (#[trigger] res_emission_metadata@[k]).res_index
            < MAX_RESERVES,
    ensures
        ({
            let meta = res_emission_metadata@;
            let n = meta.len() as int;
            if share_sum(meta, n) > SCALAR_7 {
                r == Err::<(), PoolError>(PoolError::BadRequest) && final(store).pool_config == old(store).pool_config
                    && final(store).pool_emissions@ == old(store).pool_emissions@
            } else {
                &&& r == Ok::<(), PoolError>(())
                &&& final(store).pool_config == PoolEmissionConfig {
                    config: metadata_config(meta, n),
                    last_time: old(store).pool_config.last_time,
                }
                &&& final(store).pool_emissions@ == metadata_shares(meta, n)
            }
        }),
        final(store).configs@ == old(store).configs@,
        final(store).data@ == old(store).data@,
{
    let mut pool_config = ReserveUsage { config: 0 };
    let mut pool_emissions: HashMap<u32, u64> = HashMap::new();
    let mut total_share: u128 = 0;
    let mut k: usize = 0;
    while k < res_emission_metadata.len()
        invariant
            k <= res_emission_metadata@.len(),
            forall|j: int| 0 <= j < res_emission_metadata@.len() ==> (#[trigger] res_emission_metadata@[j]).res_index
                < MAX_RESERVES,
            pool_config.config == metadata_config(res_emission_metadata@, k as int),
            pool_emissions@ == metadata_shares(res_emission_metadata@, k as int),
            total_share == share_sum(res_emission_metadata@, k as int),
            total_share <= k * 0xFFFF_FFFF_FFFF_FFFF,
        decreases res_emission_metadata@.len() - k,
    {
        broadcast use vstd::std_specs::hash::group_hash_axioms;

        let metadata = res_emission_metadata[k];
        let key: u32;
        if metadata.res_type == 0 {
            pool_config.set_liability(metadata.res_index, true);
            key = ReserveUsage::liability_key(metadata.res_index);
        } else {
            pool_config.set_supply(metadata.res_index, true);
            key = ReserveUsage::supply_key(metadata.res_index);
        }
        pool_emissions.insert(key, metadata.share);
        assert(k * 0xFFFF_FFFF_FFFF_FFFF + 0xFFFF_FFFF_FFFF_FFFF == (k + 1) * 0xFFFF_FFFF_FFFF_FFFF) by (nonlinear_arith);
        total_share = total_share + metadata.share as u128;
        k = k + 1;
    }
    if total_share > SCALAR_7 as u128 {
        return Err(PoolError::BadRequest);
    }
    store.pool_config = PoolEmissionConfig { config: pool_config.config, last_time: store.pool_config.last_time };
    store.pool_emissions = pool_emissions;
    Ok(())
}

/// The share a key has of the pool's emissions, zero where it has none.
pub open spec fn share_of(shares: Map<u32, u64>, key: u32) -> int {
    if shares.contains_key(key) {
        shares[key] as int
    } else {
        0
    }
}

/// `datas` with the record of `key` brought up to `now`: its index grows by the
/// emissions since it was last updated (up to the end of its cycle) per token of
/// `supply`, scaled by `SCALAR_7`; a key without a record gets an empty one.
/// `None` where a step overflows.
pub open spec fn accrued_data(
    cfgs: Map<u32, ReserveEmissionsConfig>,
    datas: Map<u32, ReserveEmissionsData>,
    key: u32,
    supply: int,
    now: u64,
) -> Option<Map<u32, ReserveEmissionsData>> {
    if !datas.contains_key(key) {
        Some(datas.insert(key, ReserveEmissionsData { index: 0, last_time: now }))
    } else {
        let d = datas[key];
        let eps: int = if cfgs.contains_key(key) {
            cfgs[key].eps as int
        } else {
            0
        };
        let exp: int = if cfgs.contains_key(key) {
            cfgs[key].expiration as int
        } else {
            0
        };
        let end: int = if now < exp {
            now as int
        } else {
            exp
        };
        let elapsed: int = if end > d.last_time {
            end - d.last_time
        } else {
            0
        };
        let added = if supply > 0 {
            if fits_i128(elapsed * eps) {
                mul_div_floor(elapsed * eps, SCALAR_7 as int, supply)
            } else {
                None
            }
        } else {
            Some(0)
        };
        match added {
            None => None,
            Some(a) => if fits_i128(d.index + a) {
                Some(datas.insert(key, ReserveEmissionsData { index: (d.index + a) as i128, last_time: now }))
            } else {
                None
            },
        }
    }
}

/// One reserve token's update for the next cycle: its record accrued under the
/// old rate, then its rate set to its share of `pool_eps` until `next_exp`.
pub open spec fn emission_step(
    st: Option<(Map<u32, ReserveEmissionsConfig>, Map<u32, ReserveEmissionsData>)>,
    shares: Map<u32, u64>,
    key: u32,
    supply: int,
    now: u64,
    next_exp: u64,
    pool_eps: u64,
) -> Option<(Map<u32, ReserveEmissionsConfig>, Map<u32, ReserveEmissionsData>)> {
    match st {
        None => None,
        Some((c, d)) => match accrued_data(c, d, key, supply, now) {
            None => None,
            Some(d2) => {
                let eps = share_of(shares, key) * pool_eps / (SCALAR_7 as int);
                if eps > u64::MAX {
                    None
                } else {
                    Some((c.insert(key, ReserveEmissionsConfig { expiration: next_exp, eps: eps as u64 }), d2))
                }
            },
        },
    }
}

/// The records after updating the emitting tokens of the first `n` reserves,
/// each reserve's d-token before its b-token.
pub open spec fn emissions_upto(
    reserves: Seq<Reserve>,
    usage: ReserveUsage,
    shares: Map<u32, u64>,
    now: u64,
    next_exp: u64,
    pool_eps: u64,
    start: (Map<u32, ReserveEmissionsConfig>, Map<u32, ReserveEmissionsData>),
    n: int,
) -> Option<(Map<u32, ReserveEmissionsConfig>, Map<u32, ReserveEmissionsData>)>
    decreases n,
{
    if n <= 0 {
        Some(start)
    } else {
        let i = n - 1;
        let st = emissions_upto(reserves, usage, shares, now, next_exp, pool_eps, start, i);
        let st1 = if usage.is_liability_spec(i as u32) {
            emission_step(st, shares, liability_bit(i as u32) as u32, reserves[i].data.d_supply as int, now, next_exp, pool_eps)
        } else {
            st
        };
        if usage.is_supply_spec(i as u32) {
            emission_step(st1, shares, supply_bit(i as u32) as u32, reserves[i].data.b_supply as int, now, next_exp, pool_eps)
        } else {
            st1
        }
    }
}

proof fn lemma_emissions_none_persists(
    reserves: Seq<Reserve>,
    usage: ReserveUsage,
    shares: Map<u32, u64>,
    now: u64,
    next_exp: u64,
    pool_eps: u64,
    start: (Map<u32, ReserveEmissionsConfig>, Map<u32, ReserveEmissionsData>),
    k: int,
    n: int,
)
    requires
        0 <= k <= n,
        emissions_upto(reserves, usage, shares, now, next_exp, pool_eps, start, k) is None,
    ensures
        emissions_upto(reserves, usage, shares, now, next_exp, pool_eps, start, n) is None,
    decreases n - k,
{
    if k < n {
        lemma_emissions_none_persists(reserves, usage, shares, now, next_exp, pool_eps, start, k, n - 1);
    }
}

/// Brings the record of `key` up to `now`; see `accrued_data`.
fn update_reserve_emission_data(store: &mut EmissionStore, key: u32, supply: i128, now: u64) -> (r: Result<(), PoolError>)
    ensures
        match accrued_data(old(store).configs@, old(store).data@, key, supply as int, now) {
            None => r == Err::<(), PoolError>(PoolError::ArithmeticOverflow),
            Some(d) => r == Ok::<(), PoolError>(()) && final(store).data@ == d,
        },
        final(store).configs@ == old(store).configs@,
        final(store).pool_config == old(store).pool_config,
        final(store).pool_emissions@ == old(store).pool_emissions@,
{
    broadcast use vstd::std_specs::hash::group_hash_axioms;

    let current = match store.data.get(&key) {
        None => {
            store.data.insert(key, ReserveEmissionsData { index: 0, last_time: now });
            return Ok(());
        },
        Some(d) => *d,
    };
    let (eps, exp) = match store.configs.get(&key) {
        Some(c) => (c.eps, c.expiration),
        None => (0, 0),
    };
    let end = if now < exp {
        now
    } else {
        exp
    };
    let elapsed: u64 = if end > current.last_time {
        end - current.last_time
    } else {
        0
    };
    let added: i128 = if supply > 0 {
        let emitted = match (elapsed as i128).checked_mul(eps as i128) {
            Some(t) => t,
            None => {
                return Err(PoolError::ArithmeticOverflow);
            },
        };
        match mul_floor(emitted, SCALAR_7, supply) {
            Some(a) => a,
            None => {
                return Err(PoolError::ArithmeticOverflow);
            },
        }
    } else {
        0
    };
    match current.index.checked_add(added) {
        Some(index) => {
            store.data.insert(key, ReserveEmissionsData { index, last_time: now });
            Ok(())
        },
        None => Err(PoolError::ArithmeticOverflow),
    }
}

/// Sets the rate of `key` to its share of `pool_eps` until `expiration`.
fn update_reserve_emission_config(store: &mut EmissionStore, key: u32, expiration: u64, pool_eps: u64) -> (r: Result<(), PoolError>)
    ensures
        ({
            let eps = share_of(old(store).pool_emissions@, key) * pool_eps / (SCALAR_7 as int);
            if eps > u64::MAX {
                r == Err::<(), PoolError>(PoolError::ArithmeticOverflow)
            } else {
                r == Ok::<(), PoolError>(()) && final(store).configs@ == old(store).configs@.insert(
                    key,
                    ReserveEmissionsConfig { expiration, eps: eps as u64 },
                )
            }
        }),
        r is Err ==> final(store).configs@ == old(store).configs@,
        final(store).data@ == old(store).data@,
        final(store).pool_config == old(store).pool_config,
        final(store).pool_emissions@ == old(store).pool_emissions@,
{
    broadcast use vstd::std_specs::hash::group_hash_axioms;

    let share: u64 = match store.pool_emissions.get(&key) {
        Some(s) => *s,
        None => 0,
    };
    assert((share as u128) * (pool_eps as u128) <= u128::MAX) by (nonlinear_arith)
        requires
            share <= u64::MAX,
            pool_eps <= u64::MAX,
    ;
    let eps: u128 = (share as u128) * (pool_eps as u128) / (SCALAR_7 as u128);
    if eps > u64::MAX as u128 {
        return Err(PoolError::ArithmeticOverflow);
    }
    store.configs.insert(key, ReserveEmissionsConfig { expiration, eps: eps as u64 });
    Ok(())
}

/// Starts the next emission cycle, ending at `next_exp`: every emitting reserve
/// token has its record accrued to `now` under its old rate, then its rate set
/// to its share of `pool_eps`. Returns `next_exp`.
///
/// Fails with `BadRequest`, changing nothing, where the current cycle does not
/// end before `next_exp`, and with `ArithmeticOverflow` where an update overflows.
pub fn update_emissions(reserves: &Vec<Reserve>, store: &mut EmissionStore, now: u64, next_exp: u64, pool_eps: u64) -> (r: Result<u64, PoolError>)
    requires
        reserves@.len() <= MAX_RESERVES,
    ensures
        next_exp <= old(store).pool_config.last_time ==> r == Err::<u64, PoolError>(PoolError::BadRequest)
            && final(store).pool_config == old(store).pool_config && final(store).configs@ == old(store).configs@
            && final(store).data@ == old(store).data@,
        next_exp > old(store).pool_config.last_time ==> match emissions_upto(
            reserves@,
            ReserveUsage { config: old(store).pool_config.config },
            old(store).pool_emissions@,
            now,
            next_exp,
            pool_eps,
            (old(store).configs@, old(store).data@),
            reserves@.len() as int,
        ) {
            None => r == Err::<u64, PoolError>(PoolError::ArithmeticOverflow),
            Some((c, d)) => r == Ok::<u64, PoolError>(next_exp) && final(store).configs@ == c && final(store).data@ == d
                && final(store).pool_config == (PoolEmissionConfig {
                config: old(store).pool_config.config,
                last_time: next_exp,
            }),
        },
        final(store).pool_emissions@ == old(store).pool_emissions@,
{
    if next_exp <= store.pool_config.last_time {
        return Err(PoolError::BadRequest);
    }
    let usage = ReserveUsage::new(store.pool_config.config);
    let ghost shares = store.pool_emissions@;
    let ghost start = (store.configs@, store.data@);
    let ghost config0 = store.pool_config;
    let n = reserves.len();
    let mut i: usize = 0;
    while i < n
        invariant
            n == reserves@.len(),
            n <= MAX_RESERVES,
            i <= n,
            usage.config == config0.config,
            store.pool_config == config0,
            config0 == old(store).pool_config,
            shares == old(store).pool_emissions@,
            start == (old(store).configs@, old(store).data@),
            next_exp > config0.last_time,
            store.pool_emissions@ == shares,
            emissions_upto(reserves@, usage, shares, now, next_exp, pool_eps, start, i as int) == Some(
                (store.configs@, store.data@),
            ),
        decreases n - i,
    {
        let index = i as u32;
        if usage.is_liability(index) {
            let key = ReserveUsage::liability_key(index);
            let res = update_reserve_emission_data(store, key, reserves[i].data.d_supply, now);
            let res2 = match res {
                Ok(()) => update_reserve_emission_config(store, key, next_exp, pool_eps),
                Err(e) => Err(e),
            };
            if res2.is_err() {
                proof {
                    lemma_emissions_none_persists(reserves@, usage, shares, now, next_exp, pool_eps, start, i + 1, n as int);
                }
                return Err(PoolError::ArithmeticOverflow);
            }
        }
        if usage.is_supply(index) {
            let key = ReserveUsage::supply_key(index);
            let res = update_reserve_emission_data(store, key, reserves[i].data.b_supply, now);
            let res2 = match res {
                Ok(()) => update_reserve_emission_config(store, key, next_exp, pool_eps),
                Err(e) => Err(e),
            };
            if res2.is_err() {
                proof {
                    lemma_emissions_none_persists(reserves@, usage, shares, now, next_exp, pool_eps, start, i + 1, n as int);
                }
                return Err(PoolError::ArithmeticOverflow);
            }
        }
        i = i + 1;
    }
    store.pool_config.last_time = next_exp;
    Ok(next_exp)
}

} // verus!
