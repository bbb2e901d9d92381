use microstack::common::{Asset, ContractError, Party, TokenOp};
use microstack::microlending::{Loan, Microlending};

fn ready() -> Microlending<&'static str> {
    let mut m = Microlending::new();
    m.init("admin", "usdc", 500).unwrap();
    m
}

#[test]
fn microlending_init_once() {
    let mut m = ready();
    assert_eq!(m.get_admin(), Ok(&"admin"));
    assert_eq!(m.get_token(), Ok(&"usdc"));
    assert_eq!(m.get_interest_bps(), Ok(500));
    assert_eq!(m.get_available_liquidity(), 0);
    assert_eq!(m.init("x", "y", 1), Err(ContractError::AlreadyInitialized));
    assert_eq!(m.get_interest_bps(), Ok(500));
}

#[test]
fn microlending_getters_before_init() {
    let m: Microlending<&str> = Microlending::new();
    assert_eq!(m.get_admin(), Err(ContractError::NotInitialized));
    assert_eq!(m.get_token(), Err(ContractError::NotInitialized));
    assert_eq!(m.get_interest_bps(), Err(ContractError::NotInitialized));
    assert_eq!(Microlending::<&str>::get_lender_balance(None), 0);
    assert_eq!(Microlending::<&str>::get_lender_balance(Some(9)), 9);
}

#[test]
fn microlending_deposit_and_withdraw() {
    let mut m = ready();
    let mut balance = 0i128;
    let ops = m.deposit(&mut balance, 300).unwrap();
    assert_eq!(ops, vec![TokenOp::Transfer { asset: Asset::Liquidity, from: Party::Caller, to: Party::Contract, amount: 300 }]);
    assert_eq!((balance, m.available_liquidity), (300, 300));
    let ops = m.withdraw(&mut balance, 300).unwrap();
    assert_eq!(ops, vec![TokenOp::Transfer { asset: Asset::Liquidity, from: Party::Contract, to: Party::Caller, amount: 300 }]);
    assert_eq!((balance, m.available_liquidity), (0, 0));
}

#[test]
fn microlending_deposit_withdraw_refusals() {
    let mut m = ready();
    let mut balance = 0i128;
    assert_eq!(m.deposit(&mut balance, 0), Err(ContractError::AmountNotPositive));
    assert_eq!(m.withdraw(&mut balance, -3), Err(ContractError::AmountNotPositive));
    assert_eq!(m.withdraw(&mut balance, 1), Err(ContractError::InsufficientLenderBalance));
    let mut rich = 50i128;
    assert_eq!(m.withdraw(&mut rich, 10), Err(ContractError::InsufficientLiquidity));
    let mut fresh: Microlending<&str> = Microlending::new();
    assert_eq!(fresh.deposit(&mut balance, 1), Err(ContractError::NotInitialized));
    m.available_liquidity = i128::MAX;
    assert_eq!(m.deposit(&mut balance, 1), Err(ContractError::ArithmeticOverflow));
    assert_eq!(balance, 0);
}

#[test]
fn microlending_take_loan_uses_contract_rate() {
    let mut m = ready();
    let mut balance = 0i128;
    m.deposit(&mut balance, 1_000).unwrap();
    let mut loan = None;
    let ops = m.take_loan(&mut loan, 200, 7_200, 1_000).unwrap();
    assert_eq!(ops, vec![TokenOp::Transfer { asset: Asset::Liquidity, from: Party::Contract, to: Party::Caller, amount: 200 }]);
    assert_eq!(loan, Some(Loan { principal: 200, interest_bps: 500, start_ts: 1_000, duration_secs: 7_200, repaid: false }));
    assert_eq!(m.available_liquidity, 800);
    assert_eq!(m.take_loan(&mut loan, 1, 1, 1), Err(ContractError::ExistingLoanNotRepaid));
}

#[test]
fn microlending_take_loan_refusals() {
    let mut m = ready();
    let mut loan = None;
    assert_eq!(m.take_loan(&mut loan, 0, 1, 0), Err(ContractError::AmountNotPositive));
    assert_eq!(m.take_loan(&mut loan, 1, 0, 0), Err(ContractError::DurationNotPositive));
    assert_eq!(m.take_loan(&mut loan, 1, 1, 0), Err(ContractError::InsufficientLiquidity));
    assert_eq!(loan, None);
}

#[test]
fn microlending_repay_charges_principal_plus_interest() {
    let mut m = ready();
    let mut balance = 0i128;
    m.deposit(&mut balance, 1_000).unwrap();
    let mut loan = None;
    m.take_loan(&mut loan, 1_000, 60, 0).unwrap();
    assert_eq!(Microlending::<&str>::amount_due(&loan.unwrap()), 1_050);
    let (due, ops) = m.repay(&mut loan).unwrap();
    assert_eq!(due, 1_050);
    assert_eq!(ops, vec![TokenOp::Transfer { asset: Asset::Liquidity, from: Party::Caller, to: Party::Contract, amount: 1_050 }]);
    assert!(loan.unwrap().repaid);
    assert_eq!(m.available_liquidity, 1_050);
    assert_eq!(m.repay(&mut loan), Err(ContractError::LoanAlreadyRepaid));
    assert!(m.take_loan(&mut loan, 10, 1, 2).is_ok());
}

#[test]
fn microlending_repay_refusals() {
    let mut m = ready();
    let mut none: Option<Loan> = None;
    assert_eq!(m.repay(&mut none), Err(ContractError::LoanNotFound));
    let mut huge = Some(Loan { principal: i128::MAX, interest_bps: 500, start_ts: 0, duration_secs: 1, repaid: false });
    assert_eq!(m.repay(&mut huge), Err(ContractError::InterestOverflow));
    assert!(!huge.unwrap().repaid);
    let mut fresh: Microlending<&str> = Microlending::new();
    let mut ok = Some(Loan { principal: 10, interest_bps: 0, start_ts: 0, duration_secs: 1, repaid: false });
    assert_eq!(fresh.repay(&mut ok), Err(ContractError::NotInitialized));
}

#[test]
fn microlending_liquidity_matches_flows_over_a_sequence() {
    let mut m = ready();
    let (mut a, mut b) = (0i128, 0i128);
    let mut loan = None;
    m.deposit(&mut a, 800).unwrap();
    m.deposit(&mut b, 200).unwrap();
    m.withdraw(&mut a, 100).unwrap();
    m.take_loan(&mut loan, 600, 30, 0).unwrap();
    let (due, _) = m.repay(&mut loan).unwrap();
    assert_eq!(due, 630);
    assert_eq!(m.available_liquidity, 800 + 200 - 100 - 600 + due);
    assert_eq!((a, b), (700, 200));
}
