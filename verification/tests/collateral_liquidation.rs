use microstack::collateral_liquidation::{
    check_collateral_ratio, liquidation_units, CollateralLiquidation, CollateralPosition,
};
use microstack::common::{Asset, ContractError, Party, TokenOp};
use microstack::lending_pool::Loan;
use microstack::oracle_interface::PriceData;

/// 5% liquidation bonus, 150% safe collateral ratio.
fn ready() -> CollateralLiquidation<&'static str> {
    let mut c = CollateralLiquidation::new();
    c.init("admin", "xlm", "oracle", 500, "pool", 15_000).unwrap();
    c
}

fn loan(principal: i128, start_ts: u64, duration_secs: u64) -> Option<Loan> {
    Some(Loan { principal, interest_bps: 0, start_ts, duration_secs, repaid: false, credited: 0 })
}

/// A price with two decimals.
fn price(hundredths: i128) -> PriceData {
    PriceData { price: hundredths, decimals: 2, updated_at: 0 }
}

fn liquidation_ops(repaid: i128, seized: i128) -> Vec<TokenOp> {
    vec![
        TokenOp::RepayToPool { from: Party::Caller, amount: repaid },
        TokenOp::Transfer { asset: Asset::Collateral, from: Party::Contract, to: Party::Caller, amount: seized },
    ]
}

fn alice(amount: i128) -> Option<CollateralPosition<&'static str>> {
    Some(CollateralPosition { amount, owner: "alice" })
}

#[test]
fn collateral_init_once() {
    let mut c = ready();
    assert_eq!(c.liquidation_bps, Some(500));
    assert_eq!(c.collateral_token, Some("xlm"));
    assert_eq!(c.oracle, Some("oracle"));
    assert_eq!(c.lending_pool, Some("pool"));
    assert_eq!(c.min_collateral_bps, Some(15_000));
    assert_eq!(c.init("a", "b", "c", 1, "d", 2), Err(ContractError::AlreadyInitialized));
    assert_eq!(c.liquidation_bps, Some(500));
}

#[test]
fn lock_creates_and_grows_position() {
    let c = ready();
    let mut pos = None;
    let ops = c.lock(&mut pos, "alice", 100).unwrap();
    assert_eq!(ops, vec![TokenOp::Transfer { asset: Asset::Collateral, from: Party::Caller, to: Party::Contract, amount: 100 }]);
    assert_eq!(pos, alice(100));
    c.lock(&mut pos, "alice", 50).unwrap();
    assert_eq!(pos, alice(150));
}

#[test]
fn lock_refusals() {
    let c = ready();
    let mut pos = None;
    assert_eq!(c.lock(&mut pos, "alice", 0), Err(ContractError::AmountNotPositive));
    let fresh: CollateralLiquidation<&str> = CollateralLiquidation::new();
    assert_eq!(fresh.lock(&mut pos, "alice", 5), Err(ContractError::NotInitialized));
    let mut full = alice(i128::MAX);
    assert_eq!(c.lock(&mut full, "alice", 1), Err(ContractError::ArithmeticOverflow));
    assert_eq!(pos, None);
}

#[test]
fn lock_then_unlock_restores_amount() {
    let c = ready();
    let mut pos = alice(40);
    c.lock(&mut pos, "alice", 60).unwrap();
    let ops = c.unlock(&mut pos, 60).unwrap();
    assert_eq!(ops, vec![TokenOp::Transfer { asset: Asset::Collateral, from: Party::Contract, to: Party::Caller, amount: 60 }]);
    assert_eq!(pos, alice(40));
    // unlocking everything keeps an empty position
    c.unlock(&mut pos, 40).unwrap();
    assert_eq!(pos, alice(0));
}

#[test]
fn unlock_refusals() {
    let c = ready();
    let mut none = None::<CollateralPosition<&str>>;
    assert_eq!(c.unlock(&mut none, 0), Err(ContractError::AmountNotPositive));
    assert_eq!(c.unlock(&mut none, 1), Err(ContractError::PositionNotFound));
    let mut pos = alice(10);
    assert_eq!(c.unlock(&mut pos, 11), Err(ContractError::InsufficientCollateral));
    assert_eq!(pos, alice(10));
}

#[test]
fn healthy_position_cannot_be_liquidated() {
    let c = ready();
    // 1000 units at 2.00 are worth 2000, at least 150% of a 1000 debt
    let mut pos = alice(1_000);
    assert_eq!(c.liquidate(&mut pos, "alice", 100, &mut loan(1_000, 0, 100), price(200), 50), Err(ContractError::PositionHealthy));
    // exactly at the threshold is still healthy
    assert_eq!(c.liquidate(&mut pos, "alice", 100, &mut loan(1_000, 0, 100), price(150), 50), Err(ContractError::PositionHealthy));
    assert_eq!(pos, alice(1_000));
}

#[test]
fn undercollateralised_position_is_liquidated_at_a_discount() {
    let c = ready();
    // 1000 units at 1.00 are worth 1000, below 150% of a 1000 debt
    let mut pos = alice(1_000);
    let mut debt = loan(1_000, 0, 100);
    let ops = c.liquidate(&mut pos, "alice", 100, &mut debt, price(100), 50).unwrap();
    // repaying 100 buys collateral worth 105 at 1.00
    assert_eq!(ops, liquidation_ops(100, 105));
    assert_eq!(pos, alice(895));
    // the repayment is credited to the loan: 900 is left to repay
    assert_eq!(debt.unwrap().credited, 100);
    assert!(!debt.unwrap().repaid);
    assert_eq!(
        c.liquidate(&mut pos, "alice", 901, &mut debt, price(100), 50),
        Err(ContractError::RepaymentExceedsDebt)
    );
    let ops = c.liquidate(&mut pos, "alice", 900, &mut debt, price(100), 50).unwrap();
    assert_eq!(ops, liquidation_ops(900, 895));
    assert_eq!(pos, None);
    assert!(debt.unwrap().repaid);
    assert_eq!(c.liquidate(&mut alice(10), "alice", 1, &mut debt, price(100), 50), Err(ContractError::NoOpenLoan));
}

#[test]
fn expired_loan_allows_liquidation_of_healthy_position() {
    let c = ready();
    let mut pos = alice(1_000);
    // worth 2000 at 2.00, but the loan ran from 0 for 100 seconds
    let ops = c.liquidate(&mut pos, "alice", 100, &mut loan(1_000, 0, 100), price(200), 100).unwrap();
    // 100 * 1.05 / 2.00 = 52.5, rounded down
    assert_eq!(ops, liquidation_ops(100, 52));
    assert_eq!(pos, alice(948));
}

#[test]
fn liquidation_caps_at_position_and_removes_it() {
    let c = ready();
    let mut pos = alice(50);
    let ops = c.liquidate(&mut pos, "alice", 1_000, &mut loan(1_000, 0, 100), price(100), 0).unwrap();
    assert_eq!(ops, liquidation_ops(1_000, 50));
    assert_eq!(pos, None);
}

#[test]
fn liquidation_refusals() {
    let c = ready();
    let mut none = None::<CollateralPosition<&str>>;
    let mut open = loan(1_000, 0, 100);
    assert_eq!(c.liquidate(&mut none, "alice", 0, &mut open, price(100), 0), Err(ContractError::AmountNotPositive));
    assert_eq!(c.liquidate(&mut none, "alice", 1, &mut open, price(100), 0), Err(ContractError::PositionNotFound));
    let mut pos = alice(100);
    assert_eq!(c.liquidate(&mut pos, "alice", 1, &mut None, price(100), 0), Err(ContractError::NoOpenLoan));
    let mut repaid = Some(Loan { repaid: true, ..open.unwrap() });
    assert_eq!(c.liquidate(&mut pos, "alice", 1, &mut repaid, price(100), 0), Err(ContractError::NoOpenLoan));
    assert_eq!(c.liquidate(&mut pos, "alice", 1_001, &mut open, price(100), 0), Err(ContractError::RepaymentExceedsDebt));
    assert_eq!(c.liquidate(&mut pos, "alice", 10, &mut open, price(0), 0), Err(ContractError::InvalidPrice));
    let huge = PriceData { price: 1, decimals: 39, updated_at: 0 };
    assert_eq!(c.liquidate(&mut pos, "alice", 10, &mut open, huge, 0), Err(ContractError::Overflow));
    let mut overdue = Some(Loan { interest_bps: 2, ..Loan { principal: i128::MAX, ..open.unwrap() } });
    assert_eq!(c.liquidate(&mut pos, "alice", 10, &mut overdue, price(100), 0), Err(ContractError::InterestOverflow));
    let fresh: CollateralLiquidation<&str> = CollateralLiquidation::new();
    assert_eq!(fresh.liquidate(&mut pos, "alice", 5, &mut open, price(100), 0), Err(ContractError::NotInitialized));
    assert_eq!(pos, alice(100));
}

#[test]
fn liquidation_keeps_total_collateral() {
    for repay in [1i128, 7, 99, 500, 1_000] {
        for bps in [0u32, 1, 250, 9_999, 10_000] {
            let mut c = CollateralLiquidation::new();
            c.init("admin", "xlm", "oracle", bps, "pool", 15_000).unwrap();
            let mut pos = alice(1_234);
            let ops = c.liquidate(&mut pos, "alice", repay, &mut loan(1_000, 0, 10), price(100), 10).unwrap();
            let seized = match ops[1] {
                TokenOp::Transfer { amount, .. } => amount,
                _ => unreachable!(),
            };
            let left = pos.map(|p| p.amount).unwrap_or(0);
            assert!(seized >= 0 && seized <= 1_234);
            // worth at most the repayment plus the bonus, at 1.00
            assert!(seized * 10_000 <= repay * (10_000 + bps as i128));
            assert_eq!(left + seized, 1_234);
        }
    }
}

#[test]
fn ratio_and_units_helpers() {
    assert_eq!(check_collateral_ratio(1_000, 100, 100, 1_000, 15_000), Ok(()));
    assert_eq!(check_collateral_ratio(1_500, 100, 100, 1_000, 15_000), Err(ContractError::PositionHealthy));
    assert_eq!(check_collateral_ratio(i128::MAX, 2, 1, 1, 1), Err(ContractError::Overflow));
    assert_eq!(liquidation_units(100, 500, 100, 100), Ok(105));
    assert_eq!(liquidation_units(100, 500, 3, 1), Ok(35));
    assert_eq!(liquidation_units(i128::MAX, 1, 1, 1), Err(ContractError::Overflow));
}
