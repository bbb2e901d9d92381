use microstack::common::ContractError;
use microstack::interest_strategy::{InterestStrategy, RateParams};

fn params(base_bps: u32, slope_bps: u32, optimal_util_bps: u32) -> RateParams {
    RateParams { base_bps, slope_bps, optimal_util_bps }
}

#[test]
fn rate_before_init_is_refused() {
    let s = InterestStrategy::new();
    assert_eq!(s.current_rate_bps(100), Err(ContractError::NotInitialized));
}

#[test]
fn init_stores_params_once() {
    let mut s = InterestStrategy::new();
    assert_eq!(s.init(params(200, 1000, 8000)), Ok(()));
    assert_eq!(s.params, Some(params(200, 1000, 8000)));
    assert_eq!(s.init(params(1, 1, 1)), Err(ContractError::AlreadyInitialized));
    assert_eq!(s.params, Some(params(200, 1000, 8000)));
}

#[test]
fn rate_rises_linearly_up_to_optimum() {
    let mut s = InterestStrategy::new();
    s.init(params(200, 1000, 8000)).unwrap();
    assert_eq!(s.current_rate_bps(0), Ok(200));
    assert_eq!(s.current_rate_bps(4000), Ok(700));
    assert_eq!(s.current_rate_bps(8000), Ok(1200));
    // 1000 * 1 / 8000 rounds down to 0
    assert_eq!(s.current_rate_bps(1), Ok(200));
}

#[test]
fn rate_is_flat_above_optimum() {
    let mut s = InterestStrategy::new();
    s.init(params(200, 1000, 8000)).unwrap();
    assert_eq!(s.current_rate_bps(8001), Ok(1200));
    assert_eq!(s.current_rate_bps(10_000), Ok(1200));
    assert_eq!(s.current_rate_bps(u32::MAX), Ok(1200));
}

#[test]
fn rate_with_zero_optimum_divides_by_one() {
    let p = params(50, 300, 0);
    assert_eq!(p.rate_bps(0), Ok(50));
    assert_eq!(p.rate_bps(1), Ok(350));
}

#[test]
fn rate_monotone_on_samples() {
    let p = params(100, 2500, 7000);
    let mut last = 0u32;
    for u in (0..=12_000u32).step_by(250) {
        let r = p.rate_bps(u).unwrap();
        assert!(r >= last);
        assert!(r >= 100 && r <= 2600);
        last = r;
    }
}

#[test]
fn rate_overflow_is_refused() {
    assert_eq!(params(0, u32::MAX, u32::MAX).rate_bps(2), Err(ContractError::ArithmeticOverflow));
    assert_eq!(params(u32::MAX, 1, 0).rate_bps(5), Err(ContractError::ArithmeticOverflow));
    assert_eq!(params(u32::MAX, 0, 10).rate_bps(5), Ok(u32::MAX));
}

#[test]
fn accrue_one_year_at_ten_percent() {
    assert_eq!(InterestStrategy::accrue(1_000_000, 1000, 31_536_000), 1_100_000);
}

#[test]
fn accrue_half_year_rounds_down() {
    // 1_000 * 500 * 15_768_000 / 10_000 / 31_536_000 = 25
    assert_eq!(InterestStrategy::accrue(1_000, 500, 15_768_000), 1_025);
    // a tiny principal accrues nothing in one second
    assert_eq!(InterestStrategy::accrue(1_000, 500, 1), 1_000);
}

#[test]
fn accrue_non_positive_principal_is_zero() {
    assert_eq!(InterestStrategy::accrue(0, 1000, 100), 0);
    assert_eq!(InterestStrategy::accrue(-5, 1000, 100), 0);
    assert_eq!(InterestStrategy::try_accrue(i128::MIN, u32::MAX, u64::MAX), Ok(0));
}

#[test]
fn accrue_without_time_returns_principal() {
    assert_eq!(InterestStrategy::accrue(123_456, 9_999, 0), 123_456);
}

#[test]
fn accrue_grows_with_time() {
    let mut last = 0i128;
    for e in [0u64, 1, 1000, 86_400, 31_536_000, 100_000_000] {
        let v = InterestStrategy::accrue(5_000_000, 750, e);
        assert!(v >= last);
        assert!(v >= 5_000_000);
        last = v;
    }
}

#[test]
fn accrue_product_overflow_is_refused() {
    assert_eq!(InterestStrategy::try_accrue(i128::MAX, 2, 1), Err(ContractError::Overflow));
    assert_eq!(InterestStrategy::try_accrue(i128::MAX / 2, 1, 3), Err(ContractError::Overflow));
}

#[test]
fn accrue_sum_overflow_is_refused() {
    // the products fit but principal plus interest does not
    assert_eq!(InterestStrategy::try_accrue(i128::MAX, 1, 1), Err(ContractError::ArithmeticOverflow));
}

#[test]
fn accrue_grows_with_principal_and_rate() {
    let mut last = 0i128;
    for p in [-10i128, 0, 1, 999, 1_000_000, 50_000_000] {
        let v = InterestStrategy::accrue(p, 750, 31_536_000);
        assert!(v >= last);
        last = v;
    }
    let mut last = 0i128;
    for r in [0u32, 1, 100, 750, 10_000, 100_000] {
        let v = InterestStrategy::accrue(2_000_000, r, 31_536_000);
        assert!(v >= last);
        last = v;
    }
    assert_eq!(InterestStrategy::accrue(2_000_000, 0, 31_536_000), 2_000_000);
}
