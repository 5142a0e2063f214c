use lending_pool::reserve_usage::ReserveUsage;
use lending_pool::token::{Asset, BToken, Token, TokenError};

const POOL: u64 = 1;
const ALICE: u64 = 2;
const BOB: u64 = 3;

fn token() -> Token {
    let mut t = Token::new();
    t.initialize(POOL, 7, vec![98], vec![66]).unwrap();
    t
}

#[test]
fn initialize_only_once() {
    let mut t = token();
    assert_eq!(t.decimals(), 7);
    assert_eq!(BToken::pool(&t), Some(POOL));
    assert_eq!(t.initialize(BOB, 9, vec![], vec![]), Err(TokenError::AlreadyInitializedError));
    assert_eq!(BToken::pool(&t), Some(POOL));
    assert_eq!(t.decimals(), 7);
}

#[test]
fn mint_and_clawback() {
    let mut t = token();
    t.mint(ALICE, 100).unwrap();
    assert_eq!(t.balance(ALICE), 100);
    assert_eq!(t.spendable(ALICE), 100);
    assert_eq!(t.mint(ALICE, -1), Err(TokenError::NegativeAmountError));
    assert_eq!(t.mint(ALICE, i128::MAX), Err(TokenError::BalanceError));
    t.clawback(ALICE, 40).unwrap();
    assert_eq!(t.balance(ALICE), 60);
    assert_eq!(t.clawback(ALICE, 61), Err(TokenError::BalanceError));
    assert_eq!(t.clawback(ALICE, -5), Err(TokenError::NegativeAmountError));
    assert_eq!(t.balance(ALICE), 60);
}

#[test]
fn allowances_rise_and_fall() {
    let mut t = token();
    t.increase_allowance(ALICE, BOB, 50).unwrap();
    assert_eq!(t.allowance(ALICE, BOB), 50);
    assert_eq!(t.allowance(BOB, ALICE), 0);
    t.decrease_allowance(ALICE, BOB, 20).unwrap();
    assert_eq!(t.allowance(ALICE, BOB), 30);
    assert_eq!(t.decrease_allowance(ALICE, BOB, 31), Err(TokenError::AllowanceError));
    assert_eq!(t.increase_allowance(ALICE, BOB, i128::MAX), Err(TokenError::AllowanceError));
    assert_eq!(t.increase_allowance(ALICE, BOB, -1), Err(TokenError::NegativeAmountError));
}

#[test]
fn transfer_moves_balance() {
    let mut t = token();
    t.mint(ALICE, 100).unwrap();
    let usage = ReserveUsage::new(0);
    t.transfer(ALICE, BOB, 30, &usage).unwrap();
    assert_eq!(t.balance(ALICE), 70);
    assert_eq!(t.balance(BOB), 30);
    assert_eq!(t.transfer(ALICE, BOB, 71, &usage), Err(TokenError::BalanceError));
    t.transfer(ALICE, ALICE, 70, &usage).unwrap();
    assert_eq!(t.balance(ALICE), 70);
}

#[test]
fn collateral_cannot_be_transferred() {
    let mut t = token();
    BToken::initialize_asset(&mut t, POOL, 77, 1).unwrap();
    assert_eq!(BToken::asset(&t), Some(Asset { id: 77, res_index: 1 }));
    t.mint(ALICE, 100).unwrap();
    // supply flag of reserve 1
    let usage = ReserveUsage::new(0x10);
    assert_eq!(t.transfer(ALICE, BOB, 1, &usage), Err(TokenError::CollateralizedError));
    assert_eq!(t.balance(ALICE), 100);
    t.transfer(ALICE, BOB, 1, &ReserveUsage::new(0x02)).unwrap();
    assert_eq!(t.balance(BOB), 1);
}

#[test]
fn transfer_from_spends_allowance() {
    let mut t = token();
    t.mint(ALICE, 100).unwrap();
    t.increase_allowance(ALICE, BOB, 40).unwrap();
    let usage = ReserveUsage::new(0);
    assert_eq!(t.transfer_from(BOB, ALICE, BOB, 41, &usage), Err(TokenError::AllowanceError));
    t.transfer_from(BOB, ALICE, BOB, 25, &usage).unwrap();
    assert_eq!(t.balance(ALICE), 75);
    assert_eq!(t.balance(BOB), 25);
    assert_eq!(t.allowance(ALICE, BOB), 15);
    t.increase_allowance(ALICE, BOB, 1000).unwrap();
    assert_eq!(t.transfer_from(BOB, ALICE, BOB, 76, &usage), Err(TokenError::BalanceError));
    assert_eq!(t.allowance(ALICE, BOB), 1015);
}

#[test]
fn initialize_asset_needs_the_pool_and_only_once() {
    let mut t = token();
    assert_eq!(BToken::initialize_asset(&mut t, BOB, 77, 0), Err(TokenError::NotAuthorized));
    BToken::initialize_asset(&mut t, POOL, 77, 0).unwrap();
    assert_eq!(BToken::initialize_asset(&mut t, POOL, 78, 2), Err(TokenError::AlreadyInitializedError));
    assert_eq!(BToken::asset(&t), Some(Asset { id: 77, res_index: 0 }));
    assert_eq!(t.burn(ALICE, 1), Err(TokenError::NotImplemented));
}
