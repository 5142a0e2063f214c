use lending_pool::reserve::{Reserve, ReserveConfig, ReserveData};
use lending_pool::reserve_usage::ReserveUsage;

fn reserve(b_rate: i128, d_rate: i128, c_factor: u32, l_factor: u32) -> Reserve {
    Reserve {
        asset: 1,
        config: ReserveConfig {
            b_token: 2,
            d_token: 3,
            decimals: 7,
            c_factor,
            l_factor,
            util: 0_7500000,
            r_one: 0,
            r_two: 0,
            r_three: 0,
            reactivity: 0,
            index: 0,
        },
        data: ReserveData { b_rate, d_rate, ir_mod: 0, b_supply: 0, d_supply: 0, last_block: 0 },
    }
}

#[test]
fn b_token_to_asset_rounds_down() {
    let r = reserve(1_100_000_001, 1_000_000_000, 0_7500000, 0_7500000);
    // 3 * 1.100000001 = 3.300000003 -> 3
    assert_eq!(r.to_asset_from_b_token(3), Some(3));
    assert_eq!(r.to_asset_from_b_token(10_0000000), Some(11_0000000));
}

#[test]
fn d_token_to_asset_rounds_up() {
    let r = reserve(1_000_000_000, 1_100_000_001, 0_7500000, 0_7500000);
    // 3 * 1.100000001 = 3.300000003 -> 4
    assert_eq!(r.to_asset_from_d_token(3), Some(4));
    assert_eq!(r.to_asset_from_d_token(10_0000000), Some(11_0000001));
}

#[test]
fn effective_amounts_apply_the_factors() {
    let r = reserve(1_000_000_000, 1_000_000_000, 0_7500000, 0_8000000);
    assert_eq!(r.to_effective_asset_from_b_token(10_0000000), Some(7_5000000));
    // liabilities are divided by the factor, rounded down
    assert_eq!(r.to_effective_asset_from_d_token(10_0000000), Some(12_5000000));
    assert_eq!(r.to_effective_asset_from_d_token(1), Some(1));
}

#[test]
fn zero_liability_factor_overflows() {
    let r = reserve(1_000_000_000, 1_000_000_000, 0_7500000, 0);
    assert_eq!(r.to_effective_asset_from_d_token(10_0000000), None);
}

#[test]
fn asset_to_shares_round_in_the_pools_favour() {
    let r = reserve(3_000_000_000, 3_000_000_000, 0_7500000, 0_7500000);
    // 10 / 3 = 3.33.. -> 3 d-tokens, 4 b-tokens
    assert_eq!(r.to_d_token_from_asset(10), Some(3));
    assert_eq!(r.to_b_token_from_asset(10), Some(4));
}

#[test]
fn conversions_overflow_to_none() {
    let r = reserve(2_000_000_000, 2_000_000_000, 0_7500000, 0_7500000);
    assert_eq!(r.to_asset_from_b_token(i128::MAX), None);
    assert_eq!(r.to_asset_from_d_token(i128::MAX), None);
}

#[test]
fn reserve_usage_keys_and_flags() {
    assert_eq!(ReserveUsage::liability_key(3), 9);
    assert_eq!(ReserveUsage::supply_key(3), 10);
    let usage = ReserveUsage::new(0x0A);
    assert!(usage.is_collateral(0));
    assert!(usage.is_supply(0));
    assert!(!usage.is_liability(0));
    assert!(usage.is_liability(1));
    assert!(!usage.is_supply(1));
    assert!(usage.is_active_reserve(1));
    assert!(!usage.is_active_reserve(2));
}

#[test]
fn reserve_usage_set_and_clear() {
    let mut usage = ReserveUsage::new(0);
    usage.set_supply(0, true);
    usage.set_liability(3, true);
    assert_eq!(usage.config, 0b001_000_000_010);
    usage.set_supply(0, false);
    assert_eq!(usage.config, 0b001_000_000_000);
    usage.set_liability(41, true);
    assert!(usage.is_liability(41));
    assert!(usage.is_liability(3));
}
