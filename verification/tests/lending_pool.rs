use microstack::common::{Asset, ContractError, Party, TokenOp};
use microstack::interest_strategy::RateParams;
use microstack::lending_pool::{LendingPool, Loan};

fn ready_pool() -> LendingPool<&'static str> {
    let mut pool = LendingPool::new();
    pool.init("admin", "usdc", "lusdc", "strategy").unwrap();
    pool
}

/// A strategy that charges `rate` whatever the utilization.
fn flat(rate: u32) -> RateParams {
    RateParams { base_bps: rate, slope_bps: 0, optimal_util_bps: 0 }
}

fn transfer(asset: Asset, from: Party, to: Party, amount: i128) -> TokenOp {
    TokenOp::Transfer { asset, from, to, amount }
}

#[test]
fn pool_init_stores_configuration_once() {
    let mut pool = ready_pool();
    assert_eq!(pool.get_liquidity_token(), Ok(&"usdc"));
    assert_eq!(pool.get_pool_token(), Ok(&"lusdc"));
    assert_eq!(pool.get_interest_strategy(), Ok(&"strategy"));
    assert_eq!(pool.get_available_liquidity(), 0);
    assert_eq!(pool.init("x", "y", "z", "w"), Err(ContractError::AlreadyInitialized));
    assert_eq!(pool.get_liquidity_token(), Ok(&"usdc"));
}

#[test]
fn pool_getters_before_init_are_refused() {
    let pool: LendingPool<&str> = LendingPool::new();
    assert_eq!(pool.get_liquidity_token(), Err(ContractError::NotInitialized));
    assert_eq!(pool.get_pool_token(), Err(ContractError::NotInitialized));
    assert_eq!(pool.get_interest_strategy(), Err(ContractError::NotInitialized));
    assert_eq!(pool.get_available_liquidity(), 0);
}

#[test]
fn lender_shares_default_to_zero() {
    assert_eq!(LendingPool::<&str>::get_lender_shares(None), 0);
    assert_eq!(LendingPool::<&str>::get_lender_shares(Some(42)), 42);
}

#[test]
fn pool_deposit_credits_shares_and_liquidity() {
    let mut pool = ready_pool();
    let mut shares = 0i128;
    let ops = pool.deposit(&mut shares, 500).unwrap();
    assert_eq!(shares, 500);
    assert_eq!(pool.available_liquidity, 500);
    assert_eq!(pool.total_shares, 500);
    assert_eq!(
        ops,
        vec![
            transfer(Asset::Liquidity, Party::Caller, Party::Contract, 500),
            TokenOp::Mint { asset: Asset::PoolShare, to: Party::Caller, amount: 500 },
        ]
    );
}

#[test]
fn pool_deposit_refusals() {
    let mut pool = ready_pool();
    let mut shares = 10i128;
    assert_eq!(pool.deposit(&mut shares, 0), Err(ContractError::AmountNotPositive));
    assert_eq!(pool.deposit(&mut shares, -1), Err(ContractError::AmountNotPositive));
    let mut full = i128::MAX;
    assert_eq!(pool.deposit(&mut full, 1), Err(ContractError::ArithmeticOverflow));
    assert_eq!(full, i128::MAX);
    assert_eq!(shares, 10);
    assert_eq!(pool.available_liquidity, 0);
    let mut fresh: LendingPool<&str> = LendingPool::new();
    assert_eq!(fresh.deposit(&mut shares, 5), Err(ContractError::NotInitialized));
}

#[test]
fn pool_deposit_then_withdraw_restores_state() {
    let mut pool = ready_pool();
    let mut other = 0i128;
    pool.deposit(&mut other, 70).unwrap();
    let mut shares = 30i128;
    pool.deposit(&mut shares, 250).unwrap();
    let ops = pool.withdraw(&mut shares, 250).unwrap();
    assert_eq!(shares, 30);
    assert_eq!(pool.available_liquidity, 70);
    assert_eq!(
        ops,
        vec![
            TokenOp::Burn { asset: Asset::PoolShare, from: Party::Caller, amount: 250 },
            transfer(Asset::Liquidity, Party::Contract, Party::Caller, 250),
        ]
    );
}

#[test]
fn pool_withdraw_refusals() {
    let mut pool = ready_pool();
    let mut shares = 0i128;
    pool.deposit(&mut shares, 100).unwrap();
    assert_eq!(pool.withdraw(&mut shares, 0), Err(ContractError::AmountNotPositive));
    assert_eq!(pool.withdraw(&mut shares, 101), Err(ContractError::InsufficientShares));
    // the shares are worth 100 but 80 of it is lent out
    let mut loan = None;
    pool.originate_loan(&mut loan, 80, 10, 0, &flat(0), 0).unwrap();
    assert_eq!(pool.withdraw(&mut shares, 100), Err(ContractError::InsufficientLiquidity));
    assert_eq!(pool.withdraw(&mut shares, 20), Ok(vec![
        TokenOp::Burn { asset: Asset::PoolShare, from: Party::Caller, amount: 20 },
        transfer(Asset::Liquidity, Party::Contract, Party::Caller, 20),
    ]));
    assert_eq!(shares, 80);
    assert_eq!(pool.available_liquidity, 0);
    assert_eq!(pool.total_shares, 80);
}

#[test]
fn pool_interest_goes_to_shareholders() {
    let mut pool = ready_pool();
    let mut shares = 0i128;
    pool.deposit(&mut shares, 100).unwrap();
    let mut loan = None;
    pool.originate_loan(&mut loan, 100, 3_600, 1_000, &flat(1_000), 0).unwrap();
    pool.repay(&mut loan, 110).unwrap();
    assert_eq!(pool.total_borrowed, 0);
    assert_eq!(pool.available_liquidity, 110);
    let ops = pool.withdraw(&mut shares, 100).unwrap();
    assert_eq!(
        ops,
        vec![
            TokenOp::Burn { asset: Asset::PoolShare, from: Party::Caller, amount: 100 },
            transfer(Asset::Liquidity, Party::Contract, Party::Caller, 110),
        ]
    );
    assert_eq!((shares, pool.total_shares, pool.available_liquidity), (0, 0, 0));
}

#[test]
fn pool_later_deposits_mint_proportionally() {
    let mut pool = ready_pool();
    let mut first = 0i128;
    pool.deposit(&mut first, 100).unwrap();
    let mut loan = None;
    pool.originate_loan(&mut loan, 100, 3_600, 1_000, &flat(1_000), 0).unwrap();
    pool.repay(&mut loan, 110).unwrap();
    // each share is now worth 1.1: 55 buys 50 shares
    let mut second = 0i128;
    let ops = pool.deposit(&mut second, 55).unwrap();
    assert_eq!(ops[1], TokenOp::Mint { asset: Asset::PoolShare, to: Party::Caller, amount: 50 });
    assert_eq!((second, pool.total_shares, pool.available_liquidity), (50, 150, 165));
    // too small to buy a single share
    let mut third = 0i128;
    assert_eq!(pool.deposit(&mut third, 1), Err(ContractError::DepositTooSmall));
    assert_eq!(pool.withdraw(&mut second, 50).unwrap()[1], transfer(Asset::Liquidity, Party::Contract, Party::Caller, 55));
    assert_eq!(pool.withdraw(&mut first, 100).unwrap()[1], transfer(Asset::Liquidity, Party::Contract, Party::Caller, 110));
    assert_eq!(pool.available_liquidity, 0);
}

#[test]
fn pool_liquidity_matches_flows_over_a_sequence() {
    let mut pool = ready_pool();
    let (mut a, mut b) = (0i128, 0i128);
    let mut loan = None;
    let mut flow = 0i128;
    pool.deposit(&mut a, 1_000).unwrap();
    flow += 1_000;
    pool.deposit(&mut b, 500).unwrap();
    flow += 500;
    pool.originate_loan(&mut loan, 700, 60, 200, &flat(200), 0).unwrap();
    flow -= 700;
    pool.repay(&mut loan, 300).unwrap();
    flow += 300;
    pool.repay(&mut loan, 714).unwrap();
    flow += 714;
    let ops = pool.withdraw(&mut a, 400).unwrap();
    if let TokenOp::Transfer { amount, .. } = ops[1] {
        flow -= amount;
    }
    assert_eq!(pool.available_liquidity, flow);
    assert_eq!(pool.total_shares, a + b);
    assert!(pool.available_liquidity >= 0 && a >= 0 && b >= 0);
}

#[test]
fn pool_originate_loan_records_loan() {
    let mut pool = ready_pool();
    let mut shares = 0i128;
    pool.deposit(&mut shares, 1_000).unwrap();
    let mut loan = None;
    let ops = pool.originate_loan(&mut loan, 400, 86_400, 500, &flat(500), 1_700_000_000).unwrap();
    assert_eq!(
        loan,
        Some(Loan { principal: 400, interest_bps: 500, start_ts: 1_700_000_000, duration_secs: 86_400, repaid: false, credited: 0 })
    );
    assert_eq!(pool.available_liquidity, 600);
    assert_eq!(ops, vec![transfer(Asset::Liquidity, Party::Contract, Party::Caller, 400)]);
}

#[test]
fn pool_originate_loan_refusals() {
    let mut pool = ready_pool();
    let mut shares = 0i128;
    pool.deposit(&mut shares, 100).unwrap();
    let mut loan = None;
    assert_eq!(pool.originate_loan(&mut loan, 0, 10, 1, &flat(1), 0), Err(ContractError::AmountNotPositive));
    assert_eq!(pool.originate_loan(&mut loan, 10, 0, 1, &flat(1), 0), Err(ContractError::DurationNotPositive));
    assert_eq!(pool.originate_loan(&mut loan, 101, 10, 1, &flat(1), 0), Err(ContractError::InsufficientLiquidity));
    pool.originate_loan(&mut loan, 50, 10, 1, &flat(1), 0).unwrap();
    assert_eq!(pool.originate_loan(&mut loan, 10, 10, 1, &flat(1), 0), Err(ContractError::ExistingLoanNotRepaid));
    assert_eq!(pool.available_liquidity, 50);
}

#[test]
fn pool_amount_due_formula() {
    let loan = Loan { principal: 10_000, interest_bps: 250, start_ts: 0, duration_secs: 1, repaid: false, credited: 0 };
    assert_eq!(LendingPool::<&str>::amount_due(&loan), 10_250);
    let small = Loan { principal: 99, interest_bps: 100, ..loan };
    assert_eq!(LendingPool::<&str>::amount_due(&small), 99);
    let negative = Loan { principal: -10_001, interest_bps: 1, ..loan };
    // interest rounds toward zero: -10_001 / 10_000 == -1
    assert_eq!(LendingPool::<&str>::amount_due(&negative), -10_002);
}

#[test]
fn pool_partial_repayment_keeps_loan_open() {
    let mut pool = ready_pool();
    let mut shares = 0i128;
    pool.deposit(&mut shares, 1_000).unwrap();
    let mut loan = None;
    pool.originate_loan(&mut loan, 1_000, 100, 1_000, &flat(1_000), 5).unwrap();
    let ops = pool.repay(&mut loan, 600).unwrap();
    assert_eq!(ops, vec![transfer(Asset::Liquidity, Party::Caller, Party::Contract, 600)]);
    assert!(!loan.unwrap().repaid);
    assert_eq!(pool.available_liquidity, 600);
    // 1_000 + 1_000 * 1_000 / 10_000 = 1_100 is due
    pool.repay(&mut loan, 1_099).unwrap();
    assert!(!loan.unwrap().repaid);
    pool.repay(&mut loan, 1_100).unwrap();
    assert!(loan.unwrap().repaid);
    assert_eq!(pool.available_liquidity, 600 + 1_099 + 1_100);
}

#[test]
fn pool_repay_refusals() {
    let mut pool = ready_pool();
    let mut none: Option<Loan> = None;
    assert_eq!(pool.repay(&mut none, 0), Err(ContractError::AmountNotPositive));
    assert_eq!(pool.repay(&mut none, 5), Err(ContractError::LoanNotFound));
    let mut repaid = Some(Loan { principal: 5, interest_bps: 0, start_ts: 0, duration_secs: 1, repaid: true, credited: 0 });
    assert_eq!(pool.repay(&mut repaid, 5), Err(ContractError::LoanAlreadyRepaid));
    let mut huge = Some(Loan { principal: i128::MAX, interest_bps: 2, start_ts: 0, duration_secs: 1, repaid: false, credited: 0 });
    assert_eq!(pool.repay(&mut huge, 5), Err(ContractError::InterestOverflow));
    let mut edge = Some(Loan { principal: i128::MAX, interest_bps: 1, start_ts: 0, duration_secs: 1, repaid: false, credited: 0 });
    assert_eq!(pool.repay(&mut edge, 5), Err(ContractError::ArithmeticOverflow));
    assert_eq!(pool.available_liquidity, 0);
}

#[test]
fn pool_full_cycle_gains_interest() {
    let mut pool = ready_pool();
    let mut shares = 0i128;
    pool.deposit(&mut shares, 10_000).unwrap();
    let mut loan = None;
    pool.originate_loan(&mut loan, 8_000, 3_600, 300, &flat(300), 0).unwrap();
    assert_eq!(pool.available_liquidity, 2_000);
    let due = LendingPool::<&str>::amount_due(&loan.unwrap());
    assert_eq!(due, 8_240);
    pool.repay(&mut loan, due).unwrap();
    assert!(loan.unwrap().repaid);
    assert_eq!(pool.available_liquidity, 10_240);
    assert_eq!(pool.repay(&mut loan, 1), Err(ContractError::LoanAlreadyRepaid));
    // a repaid loan does not block a new one
    assert!(pool.originate_loan(&mut loan, 100, 10, 0, &flat(0), 9).is_ok());
}

#[test]
fn pool_loan_rate_comes_from_strategy_utilization() {
    let mut pool = ready_pool();
    let mut shares = 0i128;
    pool.deposit(&mut shares, 1_000).unwrap();
    let curve = RateParams { base_bps: 100, slope_bps: 2_000, optimal_util_bps: 8_000 };
    assert_eq!(pool.utilization_bps(), Ok(0));
    let mut first = None;
    pool.originate_loan(&mut first, 400, 60, 10_000, &curve, 0).unwrap();
    // nothing was lent before: the base rate
    assert_eq!(first.unwrap().interest_bps, 100);
    assert_eq!(pool.utilization_bps(), Ok(4_000));
    let mut second = None;
    pool.originate_loan(&mut second, 100, 60, 10_000, &curve, 0).unwrap();
    // 40% utilization: 100 + 2_000 * 4_000 / 8_000
    assert_eq!(second.unwrap().interest_bps, 1_100);
    // a borrower who accepts less is refused
    let mut third = None;
    assert_eq!(pool.originate_loan(&mut third, 100, 60, 1_000, &curve, 0), Err(ContractError::RateAboveLimit));
    assert_eq!(third, None);
    assert_eq!(pool.available_liquidity, 500);
}

#[test]
fn pool_third_party_payment_reduces_debt() {
    let mut pool = ready_pool();
    let mut shares = 0i128;
    pool.deposit(&mut shares, 1_000).unwrap();
    let mut loan = None;
    pool.originate_loan(&mut loan, 1_000, 60, 1_000, &flat(1_000), 0).unwrap();
    // 1_100 is owed
    let ops = pool.repay_for(&mut loan, 400).unwrap();
    assert_eq!(ops, vec![transfer(Asset::Liquidity, Party::Caller, Party::Contract, 400)]);
    assert_eq!(loan.unwrap().credited, 400);
    assert!(!loan.unwrap().repaid);
    assert_eq!(pool.available_liquidity, 400);
    assert_eq!(pool.repay_for(&mut loan, 701), Err(ContractError::RepaymentExceedsDebt));
    // the borrower now owes 700 and closes the loan with it
    pool.repay(&mut loan, 700).unwrap();
    assert!(loan.unwrap().repaid);
    assert_eq!(pool.total_borrowed, 0);
    assert_eq!(pool.available_liquidity, 1_100);
}

#[test]
fn pool_third_party_payment_can_close_loan() {
    let mut pool = ready_pool();
    let mut shares = 0i128;
    pool.deposit(&mut shares, 500).unwrap();
    let mut loan = None;
    pool.originate_loan(&mut loan, 500, 60, 0, &flat(0), 0).unwrap();
    pool.repay_for(&mut loan, 500).unwrap();
    assert!(loan.unwrap().repaid);
    assert_eq!(pool.total_borrowed, 0);
    assert_eq!(pool.repay_for(&mut loan, 1), Err(ContractError::LoanAlreadyRepaid));
    let mut none: Option<Loan> = None;
    assert_eq!(pool.repay_for(&mut none, 1), Err(ContractError::LoanNotFound));
    assert_eq!(pool.repay_for(&mut none, 0), Err(ContractError::AmountNotPositive));
}
