use lending_pool::auction::{
    create, create_liquidation, delete_liquidation, fill, get_fill_modifiers, preview_fill, AuctionData, AuctionType,
    LiquidationMetadata,
};
use lending_pool::errors::PoolError;
use lending_pool::pool::{make_auction_key, Pool, Positions};
use lending_pool::reserve::{Reserve, ReserveConfig, ReserveData};
use lending_pool::reserve_usage::ReserveUsage;

fn create_reserve(asset: u64, index: u32) -> Reserve {
    Reserve {
        asset,
        config: ReserveConfig {
            b_token: asset + 100,
            d_token: asset + 200,
            decimals: 7,
            c_factor: 0_7500000,
            l_factor: 0_7500000,
            util: 0_7500000,
            r_one: 0_0500000,
            r_two: 0_5000000,
            r_three: 1_5000000,
            reactivity: 0_000_002_000,
            index,
        },
        data: ReserveData {
            b_rate: 1_000_000_000,
            d_rate: 1_000_000_000,
            ir_mod: 1_000_000_000,
            b_supply: 100_0000000,
            d_supply: 75_0000000,
            last_block: 0,
        },
    }
}

fn two_reserve_pool(block: u32) -> Pool {
    Pool::new(vec![create_reserve(1, 0), create_reserve(2, 1)], vec![10_0000000, 5_0000000], 900, 901, block).unwrap()
}

#[test]
fn pool_new_checks_reserve_order_and_prices() {
    let pool = two_reserve_pool(5);
    assert_eq!(pool.backstop_credit, vec![0, 0]);
    assert!(pool.positions.is_empty());
    assert!(Pool::new(vec![create_reserve(1, 1)], vec![10_0000000], 900, 901, 5).is_none());
    assert!(Pool::new(vec![create_reserve(1, 0)], vec![0], 900, 901, 5).is_none());
    assert!(Pool::new(vec![create_reserve(1, 0)], vec![], 900, 901, 5).is_none());
}

fn positions(config: u128, collateral: Vec<i128>, liabilities: Vec<i128>) -> Positions {
    Positions { config: ReserveUsage { config }, collateral, liabilities }
}

fn empty_auction(block: u32) -> AuctionData {
    AuctionData { bid: vec![], lot: vec![], block }
}

#[test]
fn test_create_user_liquidation_errors() {
    let mut pool = two_reserve_pool(100);
    let result = create(&mut pool, AuctionType::UserLiquidation.to_u32());
    match result {
        Ok(_) => assert!(false),
        Err(err) => assert_eq!(err, PoolError::BadRequest),
    }
}

#[test]
fn test_delete_user_liquidation() {
    let samwise: u64 = 7;
    let collateral_amount = 17_8000000;
    let liability_amount = 20_0000000;
    let mut pool = two_reserve_pool(100);
    pool.positions.insert(samwise, positions(0x000000000000000A, vec![collateral_amount, 0], vec![0, liability_amount]));
    pool.auctions.insert(make_auction_key(AuctionType::UserLiquidation.to_u32(), samwise), empty_auction(100));

    delete_liquidation(&mut pool, samwise).unwrap();
    assert!(!pool.has_auction(AuctionType::UserLiquidation.to_u32(), samwise));
}

#[test]
fn test_delete_user_liquidation_invalid_hf() {
    let samwise: u64 = 7;
    let collateral_amount = 15_0000000;
    let liability_amount = 20_0000000;
    let mut pool = two_reserve_pool(100);
    pool.positions.insert(samwise, positions(0x000000000000000A, vec![collateral_amount, 0], vec![0, liability_amount]));
    pool.auctions.insert(make_auction_key(AuctionType::UserLiquidation.to_u32(), samwise), empty_auction(100));

    let result = delete_liquidation(&mut pool, samwise);
    assert_eq!(result, Err(PoolError::InvalidHf));
    assert!(pool.has_auction(AuctionType::UserLiquidation.to_u32(), samwise));
}

#[test]
fn test_get_fill_modifiers() {
    let auction_data = empty_auction(1000);

    let (bid_modifier, receive_from_modifier) = get_fill_modifiers(1000, &auction_data);
    assert_eq!(bid_modifier, 1_0000000);
    assert_eq!(receive_from_modifier, 0);

    let (bid_modifier, receive_from_modifier) = get_fill_modifiers(1100, &auction_data);
    assert_eq!(bid_modifier, 1_0000000);
    assert_eq!(receive_from_modifier, 0_5000000);

    let (bid_modifier, receive_from_modifier) = get_fill_modifiers(1200, &auction_data);
    assert_eq!(bid_modifier, 1_0000000);
    assert_eq!(receive_from_modifier, 1_0000000);

    let (bid_modifier, receive_from_modifier) = get_fill_modifiers(1201, &auction_data);
    assert_eq!(bid_modifier, 0_9950000);
    assert_eq!(receive_from_modifier, 1_0000000);

    let (bid_modifier, receive_from_modifier) = get_fill_modifiers(1300, &auction_data);
    assert_eq!(bid_modifier, 0_5000000);
    assert_eq!(receive_from_modifier, 1_0000000);

    let (bid_modifier, receive_from_modifier) = get_fill_modifiers(1400, &auction_data);
    assert_eq!(bid_modifier, 0);
    assert_eq!(receive_from_modifier, 1_0000000);
}

#[test]
fn fill_modifiers_past_the_curve_waive_the_bid() {
    let auction_data = empty_auction(10);
    assert_eq!(get_fill_modifiers(411, &auction_data), (0, 1_0000000));
    assert_eq!(get_fill_modifiers(5_000, &auction_data), (0, 1_0000000));
    assert_eq!(get_fill_modifiers(u32::MAX, &auction_data), (0, 1_0000000));
}

#[test]
fn fill_modifiers_bid_plus_decay_is_two() {
    let auction_data = empty_auction(0);
    for blocks in 201u32..=400 {
        let (bid, lot) = get_fill_modifiers(blocks, &auction_data);
        assert_eq!(bid + blocks as i128 * 0_0050000, 2_0000000);
        assert_eq!(lot, 1_0000000);
    }
    for blocks in 0u32..=200 {
        let (bid, lot) = get_fill_modifiers(blocks, &auction_data);
        assert_eq!(bid, 1_0000000);
        assert_eq!(lot, blocks as i128 * 0_0050000);
    }
}

#[test]
fn auction_type_codes_round_trip() {
    assert_eq!(AuctionType::from_u32(0), AuctionType::UserLiquidation);
    assert_eq!(AuctionType::from_u32(1), AuctionType::BadDebtAuction);
    assert_eq!(AuctionType::from_u32(2), AuctionType::InterestAuction);
    assert_eq!(AuctionType::InterestAuction.to_u32(), 2);
}

#[test]
fn create_rejects_unknown_type() {
    let mut pool = two_reserve_pool(100);
    assert_eq!(create(&mut pool, 3).unwrap_err(), PoolError::BadRequest);
}

#[test]
fn delete_liquidation_without_auction_is_bad_request() {
    let mut pool = two_reserve_pool(100);
    assert_eq!(delete_liquidation(&mut pool, 7), Err(PoolError::BadRequest));
}

#[test]
fn delete_liquidation_overflowing_valuation() {
    let samwise: u64 = 7;
    let mut pool = two_reserve_pool(100);
    pool.positions.insert(samwise, positions(0x2, vec![i128::MAX, 0], vec![]));
    pool.auctions.insert(make_auction_key(0, samwise), empty_auction(100));
    assert_eq!(delete_liquidation(&mut pool, samwise), Err(PoolError::ArithmeticOverflow));
    assert!(pool.has_auction(0, samwise));
}

#[test]
fn create_bad_debt_auction_and_fill_it() {
    let mut pool = two_reserve_pool(100);
    let backstop = pool.backstop;
    pool.positions.insert(backstop, positions(0x8, vec![], vec![0, 10_0000000]));
    let data = create(&mut pool, AuctionType::BadDebtAuction.to_u32()).unwrap();
    assert_eq!(data.bid, vec![(1u32, 10_0000000i128)]);
    // 10 d-tokens at rate 1 and price 5
    assert_eq!(data.lot, vec![(2u32, 50_0000000i128)]);
    assert_eq!(data.block, 100);
    assert_eq!(create(&mut pool, 1).unwrap_err(), PoolError::BadRequest);

    // 300 blocks later: half the bid, the whole lot
    pool.block = 400;
    let quote = fill(&mut pool, 1, backstop, 42).unwrap();
    assert_eq!(quote.bid, vec![(2u64, 5_0000000i128)]);
    assert_eq!(quote.lot, vec![(901u64, 50_0000000i128)]);
    assert_eq!(pool.get_liability(backstop, 1), 5_0000000);
    assert_eq!(pool.reserves[1].data.d_supply, 70_0000000);
    assert!(!pool.has_auction(1, backstop));
    assert_eq!(fill(&mut pool, 1, backstop, 42).unwrap_err(), PoolError::BadRequest);
}

#[test]
fn create_bad_debt_without_debt_is_bad_request() {
    let mut pool = two_reserve_pool(100);
    assert_eq!(create(&mut pool, 1).unwrap_err(), PoolError::BadRequest);
    assert_eq!(create(&mut pool, 2).unwrap_err(), PoolError::BadRequest);
}

#[test]
fn create_interest_auction_and_fill_it() {
    let mut pool = two_reserve_pool(100);
    pool.backstop_credit = vec![2_0000000, 4_0000000];
    let backstop = pool.backstop;
    let data = create(&mut pool, AuctionType::InterestAuction.to_u32()).unwrap();
    assert_eq!(data.lot, vec![(0u32, 2_0000000i128), (1u32, 4_0000000i128)]);
    // 2 at price 10 plus 4 at price 5
    assert_eq!(data.bid, vec![(2u32, 40_0000000i128)]);

    // 100 blocks later: the whole bid, half the lot
    pool.block = 200;
    let quote = fill(&mut pool, 2, backstop, 42).unwrap();
    assert_eq!(quote.bid, vec![(901u64, 40_0000000i128)]);
    assert_eq!(quote.lot, vec![(1u64, 1_0000000i128), (2u64, 2_0000000i128)]);
    assert_eq!(pool.backstop_credit, vec![1_0000000, 2_0000000]);
    assert!(!pool.has_auction(2, backstop));
}

#[test]
fn liquidation_create_preview_and_fill() {
    let frodo: u64 = 11;
    let filler: u64 = 12;
    let mut pool = two_reserve_pool(100);
    // 15 b-tokens of reserve 0 (112.5 base) against 20 d-tokens of reserve 1 (133.33 base)
    pool.positions.insert(frodo, positions(0xA, vec![15_0000000, 0], vec![0, 20_0000000]));
    let liq = LiquidationMetadata { collateral: vec![(0, 12_0000000)], liability: vec![(1, 25_0000000)] };
    let data = create_liquidation(&mut pool, frodo, liq).unwrap();
    // the liability is capped at what the user owes
    assert_eq!(data.bid, vec![(1u32, 20_0000000i128)]);
    assert_eq!(data.lot, vec![(0u32, 12_0000000i128)]);
    assert!(pool.has_auction(0, frodo));

    let liq_again = LiquidationMetadata { collateral: vec![(0, 1)], liability: vec![(1, 1)] };
    assert_eq!(create_liquidation(&mut pool, frodo, liq_again).unwrap_err(), PoolError::BadRequest);

    pool.block = 150;
    let first = preview_fill(&pool, 0, frodo).unwrap();
    let second = preview_fill(&pool, 0, frodo).unwrap();
    assert_eq!(first.bid, second.bid);
    assert_eq!(first.lot, second.lot);
    assert_eq!(first.bid, vec![(2u64, 20_0000000i128)]);
    assert_eq!(first.lot, vec![(1u64, 3_0000000i128)]);
    assert!(pool.has_auction(0, frodo));

    let quote = fill(&mut pool, 0, frodo, filler).unwrap();
    assert_eq!(quote.lot, first.lot);
    assert_eq!(pool.get_liability(frodo, 1), 0);
    assert_eq!(pool.get_collateral(frodo, 0), 12_0000000);
    assert_eq!(pool.get_collateral(filler, 0), 3_0000000);
    assert_eq!(pool.reserves[1].data.d_supply, 55_0000000);
    // the repaid liability's flag is cleared, the filler's new collateral flagged
    assert!(!pool.positions.get(&frodo).unwrap().config.is_liability(1));
    assert!(pool.positions.get(&frodo).unwrap().config.is_collateral(0));
    assert!(pool.positions.get(&filler).unwrap().config.is_collateral(0));
    assert!(!pool.has_auction(0, frodo));
    assert_eq!(fill(&mut pool, 0, frodo, filler).unwrap_err(), PoolError::BadRequest);
    assert_eq!(preview_fill(&pool, 0, frodo).unwrap_err(), PoolError::BadRequest);
}

#[test]
fn liquidation_of_healthy_user_is_invalid_hf() {
    let frodo: u64 = 11;
    let mut pool = two_reserve_pool(100);
    pool.positions.insert(frodo, positions(0xA, vec![17_8000000, 0], vec![0, 20_0000000]));
    let liq = LiquidationMetadata { collateral: vec![(0, 1_0000000)], liability: vec![(1, 1_0000000)] };
    assert_eq!(create_liquidation(&mut pool, frodo, liq).unwrap_err(), PoolError::InvalidHf);
}

#[test]
fn liquidation_naming_unknown_reserve_is_bad_request() {
    let frodo: u64 = 11;
    let mut pool = two_reserve_pool(100);
    pool.positions.insert(frodo, positions(0xA, vec![15_0000000, 0], vec![0, 20_0000000]));
    let liq = LiquidationMetadata { collateral: vec![(5, 1_0000000)], liability: vec![(1, 1_0000000)] };
    assert_eq!(create_liquidation(&mut pool, frodo, liq).unwrap_err(), PoolError::BadRequest);
    assert!(!pool.has_auction(0, frodo));
}

#[test]
fn fill_with_too_little_debt_is_insufficient_balance() {
    let frodo: u64 = 11;
    let mut pool = two_reserve_pool(100);
    pool.positions.insert(frodo, positions(0xA, vec![15_0000000, 0], vec![0, 1_0000000]));
    pool.auctions.insert(
        make_auction_key(0, frodo),
        AuctionData { bid: vec![(1, 5_0000000)], lot: vec![(0, 1_0000000)], block: 100 },
    );
    assert_eq!(fill(&mut pool, 0, frodo, 12).unwrap_err(), PoolError::InsufficientBalance);
    // nothing changed: the auction is still there, the balances as they were
    assert!(pool.has_auction(0, frodo));
    assert_eq!(pool.get_liability(frodo, 1), 1_0000000);
    assert_eq!(pool.get_collateral(frodo, 0), 15_0000000);
    assert_eq!(pool.reserves[1].data.d_supply, 75_0000000);
}

#[test]
fn failed_fill_keeps_earlier_repayments_undone() {
    let frodo: u64 = 11;
    let mut pool = two_reserve_pool(100);
    // the debt can be repaid, the collateral cannot be moved
    pool.positions.insert(frodo, positions(0xA, vec![1_0000000, 0], vec![0, 20_0000000]));
    pool.auctions.insert(
        make_auction_key(0, frodo),
        AuctionData { bid: vec![(1, 5_0000000)], lot: vec![(0, 3_0000000)], block: 100 },
    );
    pool.block = 300;
    assert_eq!(fill(&mut pool, 0, frodo, 12).unwrap_err(), PoolError::InsufficientBalance);
    assert!(pool.has_auction(0, frodo));
    assert_eq!(pool.get_liability(frodo, 1), 20_0000000);
    assert_eq!(pool.reserves[1].data.d_supply, 75_0000000);
    assert_eq!(pool.get_collateral(12, 0), 0);
}

#[test]
fn debt_bid_is_quoted_in_underlying() {
    let frodo: u64 = 11;
    let mut pool = two_reserve_pool(100);
    pool.reserves[1].data.d_rate = 1_100_000_000;
    pool.positions.insert(frodo, positions(0xA, vec![15_0000000, 0], vec![0, 20_0000000]));
    pool.auctions.insert(
        make_auction_key(0, frodo),
        AuctionData { bid: vec![(1, 3)], lot: vec![(0, 1_0000000)], block: 100 },
    );
    // 3 d-tokens at 1.1 cost 3.3 underlying, rounded up
    let quote = preview_fill(&pool, 0, frodo).unwrap();
    assert_eq!(quote.bid, vec![(2u64, 4i128)]);
    let filled = fill(&mut pool, 0, frodo, 12).unwrap();
    assert_eq!(filled.bid, vec![(2u64, 4i128)]);
    assert_eq!(pool.get_liability(frodo, 1), 20_0000000 - 3);
}

#[test]
fn liquidation_naming_a_reserve_twice_is_bad_request() {
    let frodo: u64 = 11;
    let mut pool = two_reserve_pool(100);
    pool.positions.insert(frodo, positions(0xA, vec![15_0000000, 0], vec![0, 20_0000000]));
    let liq = LiquidationMetadata {
        collateral: vec![(0, 15_0000000), (0, 15_0000000)],
        liability: vec![(1, 20_0000000)],
    };
    assert_eq!(create_liquidation(&mut pool, frodo, liq).unwrap_err(), PoolError::BadRequest);
    let liq = LiquidationMetadata {
        collateral: vec![(0, 1_0000000)],
        liability: vec![(1, 1_0000000), (1, 1_0000000)],
    };
    assert_eq!(create_liquidation(&mut pool, frodo, liq).unwrap_err(), PoolError::BadRequest);
    assert!(!pool.has_auction(0, frodo));
}

#[test]
fn liquidation_lot_worth_more_than_collateral_is_bad_request() {
    let frodo: u64 = 11;
    let mut pool = two_reserve_pool(100);
    // b-tokens of reserve 1 are held but not flagged as collateral
    pool.positions.insert(frodo, positions(0xA, vec![15_0000000, 10_0000000], vec![0, 20_0000000]));
    let liq = LiquidationMetadata {
        collateral: vec![(0, 15_0000000), (1, 10_0000000)],
        liability: vec![(1, 20_0000000)],
    };
    assert_eq!(create_liquidation(&mut pool, frodo, liq).unwrap_err(), PoolError::BadRequest);
    let liq = LiquidationMetadata { collateral: vec![(0, 15_0000000)], liability: vec![(1, 20_0000000)] };
    let data = create_liquidation(&mut pool, frodo, liq).unwrap();
    assert_eq!(data.lot, vec![(0u32, 15_0000000i128)]);
}

#[test]
fn interest_fill_beyond_credit_is_insufficient_balance() {
    let mut pool = two_reserve_pool(100);
    let backstop = pool.backstop;
    pool.backstop_credit = vec![1_0000000, 0];
    pool.auctions.insert(
        make_auction_key(2, backstop),
        AuctionData { bid: vec![(2, 1_0000000)], lot: vec![(0, 3_0000000)], block: 100 },
    );
    pool.block = 400;
    assert_eq!(fill(&mut pool, 2, backstop, 42).unwrap_err(), PoolError::InsufficientBalance);
}

#[test]
fn bad_debt_valuation_overflow_is_arithmetic_overflow() {
    let mut pool = two_reserve_pool(100);
    let backstop = pool.backstop;
    pool.positions.insert(backstop, positions(0x1, vec![], vec![i128::MAX / 2]));
    assert_eq!(create(&mut pool, 1).unwrap_err(), PoolError::ArithmeticOverflow);
    assert!(!pool.has_auction(1, backstop));
}
