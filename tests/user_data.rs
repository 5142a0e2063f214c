use std::collections::HashMap;

use lending_pool::pool::{Pool, Positions};
use lending_pool::reserve::{Reserve, ReserveConfig, ReserveData};
use lending_pool::reserve_usage::ReserveUsage;
use lending_pool::errors::PoolError;
use lending_pool::user_data::{UserAction, UserData};

const ASSET_0: u64 = 1;
const ASSET_1: u64 = 2;

fn reserve(asset: u64, index: u32, c_factor: u32, l_factor: u32, util: u32, b_rate: i128, d_rate: i128) -> Reserve {
    Reserve {
        asset,
        config: ReserveConfig {
            b_token: asset + 100,
            d_token: asset + 200,
            decimals: 7,
            c_factor,
            l_factor,
            util,
            r_one: 0,
            r_two: 0,
            r_three: 0,
            reactivity: 100,
            index,
        },
        data: ReserveData { b_rate, d_rate, ir_mod: 0, b_supply: 0, d_supply: 0, last_block: 0 },
    }
}

fn pool(l_factor_0: u32, price_0: i128, price_1: i128) -> Pool {
    Pool {
        reserves: vec![
            reserve(ASSET_0, 0, 0_7500000, l_factor_0, 0_8000000, 1_000_000_000, 1_100_000_000),
            reserve(ASSET_1, 1, 0_7000000, 0_6000000, 0_7000000, 1_100_000_000, 1_200_000_000),
        ],
        prices: vec![price_0, price_1],
        backstop: 900,
        backstop_token: 901,
        backstop_credit: vec![0, 0],
        block: 0,
        positions: HashMap::new(),
        auctions: HashMap::new(),
    }
}

fn positions(config: u128, collateral: Vec<i128>, liabilities: Vec<i128>) -> Positions {
    Positions { config: ReserveUsage { config }, collateral, liabilities }
}

#[test]
fn test_load_user_only_collateral() {
    let collateral_amount = 10_0000000;
    let pool = pool(0_5000000, 1000000_0000000, 5_0000000);
    // only collateralize asset 1
    let user = positions(0x0000000000000010, vec![0, collateral_amount], vec![]);
    let user_action = UserAction { asset: 0, d_token_delta: 0, b_token_delta: 0 };
    let user_data = UserData::load(&pool, &user, &user_action).unwrap();
    assert_eq!(user_data.liability_base, 0);
    assert_eq!(user_data.collateral_base, 38_5000000);
}

#[test]
fn test_load_user_only_liability() {
    let liability_amount = 12_0000000;
    let pool = pool(0_5500000, 10_0000000, 0_0000001);
    // only liability asset 0
    let user = positions(0x0000000000000001, vec![], vec![liability_amount]);
    let user_action = UserAction { asset: 0, d_token_delta: 0, b_token_delta: 0 };
    let user_data = UserData::load(&pool, &user, &user_action).unwrap();
    assert_eq!(user_data.liability_base, 240_0000000);
    assert_eq!(user_data.collateral_base, 0);
}

#[test]
fn test_load_user_only_action() {
    let pool = pool(0_5500000, 10_0000000, 5_0000000);
    let user = positions(0x0000000000000000, vec![], vec![]);
    let user_action = UserAction { asset: ASSET_0, d_token_delta: 0, b_token_delta: 3_0000000 };
    let user_data = UserData::load(&pool, &user, &user_action).unwrap();
    assert_eq!(user_data.liability_base, 0);
    assert_eq!(user_data.collateral_base, 22_5000000);
}

#[test]
fn test_load_user_all_positions() {
    let pool = pool(0_5500000, 10_0000000, 5_0000000);
    let liability_amount = 24_0000000;
    let collateral_amount = 25_0000000;
    let additional_liability = -5_0000000;
    // collateralize asset 0 and borrow asset 1
    let user = positions(0x000000000000000A, vec![collateral_amount, 0], vec![0, liability_amount]);
    let user_action = UserAction { asset: ASSET_1, d_token_delta: additional_liability, b_token_delta: 0 };
    let user_data = UserData::load(&pool, &user, &user_action).unwrap();
    assert_eq!(user_data.liability_base, 190_0000000);
    assert_eq!(user_data.collateral_base, 187_5000000);
}

#[test]
fn health_is_collateral_covering_liability() {
    assert!(UserData { collateral_base: 5, liability_base: 5 }.is_healthy());
    assert!(!UserData { collateral_base: 4, liability_base: 5 }.is_healthy());
}

#[test]
fn load_inactive_user_is_zero_whatever_it_holds() {
    let pool = pool(0_5500000, 10_0000000, 5_0000000);
    let user = positions(0, vec![25_0000000, 7_0000000], vec![3_0000000, 24_0000000]);
    let user_data = UserData::load(&pool, &user, &UserAction::none()).unwrap();
    assert_eq!(user_data, UserData { collateral_base: 0, liability_base: 0 });
}

#[test]
fn load_overflowing_balance_is_arithmetic_overflow() {
    let pool = pool(0_5500000, 10_0000000, 5_0000000);
    let user = positions(0x2, vec![i128::MAX / 2], vec![]);
    assert_eq!(UserData::load(&pool, &user, &UserAction::none()), Err(PoolError::ArithmeticOverflow));
}

#[test]
fn stale_liability_flag_on_empty_balance_adds_nothing() {
    let mut pool = pool(0_5500000, 10_0000000, 5_0000000);
    pool.reserves[1].config.l_factor = 0;
    // liability flag of reserve 1 set, no d-tokens held
    let stale = positions(0x0A, vec![25_0000000], vec![]);
    let cleared = positions(0x02, vec![25_0000000], vec![]);
    let with_flag = UserData::load(&pool, &stale, &UserAction::none());
    let without_flag = UserData::load(&pool, &cleared, &UserAction::none());
    assert_eq!(with_flag, without_flag);
    assert_eq!(with_flag.unwrap(), UserData { collateral_base: 187_5000000, liability_base: 0 });
}
