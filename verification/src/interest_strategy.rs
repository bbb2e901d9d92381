//! The interest-rate strategy: a utilization-based rate curve and the
//! accrual of simple interest over time.
use vstd::prelude::*;

use vstd::arithmetic::div_mod::{lemma_div_is_ordered, lemma_div_multiples_vanish};

use crate::common::{fits_i128, fits_u32, ContractError, BPS_DENOMINATOR, SECONDS_PER_YEAR};

verus! {

/// Parameters of the rate curve, all in basis points.
#[derive(Clone, Copy, Debug, PartialEq, Eq, Structural)]
pub struct RateParams {
    pub base_bps: u32,
    pub slope_bps: u32,
    pub optimal_util_bps: u32,
}

/// The stored state of the strategy contract: its rate parameters once set.
#[derive(Clone, Copy, Debug)]
pub struct InterestStrategy {
    pub params: Option<RateParams>,
}

/// The divisor of the rising part of the curve: the optimal utilization, or 1 when it is 0.
pub open spec fn curve_divisor(p: RateParams) -> int {
    if p.optimal_util_bps > 0 { p.optimal_util_bps as int } else { 1 }
}

/// The rate at a given utilization: below or at the optimum it rises linearly
/// from `base_bps` toward `base_bps + slope_bps`; above it, it is that maximum.
pub open spec fn rate_value(p: RateParams, utilization_bps: int) -> int {
    if utilization_bps <= p.optimal_util_bps {
        p.base_bps + (p.slope_bps * utilization_bps) / curve_divisor(p)
    } else {
        p.base_bps + p.slope_bps
    }
}

/// Whether computing the rate in `u32` arithmetic overflows somewhere.
pub open spec fn rate_overflows(p: RateParams, utilization_bps: int) -> bool {
    if utilization_bps <= p.optimal_util_bps {
        !fits_u32(p.slope_bps * utilization_bps) || !fits_u32(rate_value(p, utilization_bps))
    } else {
        !fits_u32(p.base_bps + p.slope_bps)
    }
}

/// Principal plus interest after `elapsed_secs` at `rate_bps` per year;
/// zero for a principal that is not positive.
pub open spec fn accrue_value(principal: int, rate_bps: int, elapsed_secs: int) -> int {
    if principal <= 0 {
        0
    } else {
        principal + principal * rate_bps * elapsed_secs / 10_000 / 31_536_000
    }
}

/// The outcome of the contract's `accrue`: the two products are checked
/// (`Overflow`), the final sum is an ordinary addition (`ArithmeticOverflow`).
pub open spec fn accrue_result(principal: i128, rate_bps: u32, elapsed_secs: u64) -> Result<i128, ContractError> {
    if principal <= 0 {
        Ok(0)
    } else if !fits_i128(principal * rate_bps) || !fits_i128(principal * rate_bps * elapsed_secs) {
        Err(ContractError::Overflow)
    } else if !fits_i128(accrue_value(principal as int, rate_bps as int, elapsed_secs as int)) {
        Err(ContractError::ArithmeticOverflow)
    } else {
        Ok(accrue_value(principal as int, rate_bps as int, elapsed_secs as int) as i128)
    }
}

impl RateParams {
    /// The rate in basis points at `utilization_bps`, refused when the `u32`
    /// arithmetic of the curve overflows.
    pub fn rate_bps(&self, utilization_bps: u32) -> (r: Result<u32, ContractError>)
        ensures
            match r {
                Ok(rate) => !rate_overflows(*self, utilization_bps as int)
                    && rate == rate_value(*self, utilization_bps as int),
                Err(e) => rate_overflows(*self, utilization_bps as int)
                    && e == ContractError::ArithmeticOverflow,
            },
    {
        if utilization_bps <= self.optimal_util_bps {
            let divisor: u32 = if self.optimal_util_bps > 0 { self.optimal_util_bps } else { 1 };
            match self.slope_bps.checked_mul(utilization_bps) {
                None => Err(ContractError::ArithmeticOverflow),
                Some(product) => match self.base_bps.checked_add(product / divisor) {
                    None => Err(ContractError::ArithmeticOverflow),
                    Some(rate) => Ok(rate),
                },
            }
        } else {
            match self.base_bps.checked_add(self.slope_bps) {
                None => Err(ContractError::ArithmeticOverflow),
                Some(rate) => Ok(rate),
            }
        }
    }
}

impl InterestStrategy {
    /// The state of a freshly deployed strategy: no parameters.
    pub fn new() -> (s: Self)
        ensures
            s.params is None,
    {
        InterestStrategy { params: None }
    }

    /// What `init` does to a state: it stores the parameters once.
    pub open spec fn init_result(self, params: RateParams) -> Result<Self, ContractError> {
        if self.params is Some {
            Err(ContractError::AlreadyInitialized)
        } else {
            Ok(InterestStrategy { params: Some(params) })
        }
    }

    /// Stores the rate parameters; refused when they are already stored.
    pub fn init(&mut self, params: RateParams) -> (r: Result<(), ContractError>)
        ensures
            match r {
                Ok(()) => old(self).init_result(params) == Ok::<Self, ContractError>(*final(self)),
                Err(e) => old(self).init_result(params) == Err::<Self, ContractError>(e)
                    && *final(self) == *old(self),
            },
    {
        if self.params.is_some() {
            return Err(ContractError::AlreadyInitialized);
        }
        self.params = Some(params);
        Ok(())
    }

    /// The current rate for a utilization: `NotInitialized` before `init`,
    /// otherwise the curve of the stored parameters.
    pub fn current_rate_bps(&self, utilization_bps: u32) -> (r: Result<u32, ContractError>)
        ensures
            match self.params {
                None => r == Err::<u32, ContractError>(ContractError::NotInitialized),
                Some(p) => match r {
                    Ok(rate) => !rate_overflows(p, utilization_bps as int)
                        && rate == rate_value(p, utilization_bps as int),
                    Err(e) => rate_overflows(p, utilization_bps as int)
                        && e == ContractError::ArithmeticOverflow,
                },
            },
    {
        match &self.params {
            None => Err(ContractError::NotInitialized),
            Some(p) => p.rate_bps(utilization_bps),
        }
    }

    /// The stored rate parameters; refused before `init`.
    pub fn get_params(&self) -> (r: Result<RateParams, ContractError>)
        ensures
            match self.params {
                Some(p) => r == Ok::<RateParams, ContractError>(p),
                None => r == Err::<RateParams, ContractError>(ContractError::NotInitialized),
            },
    {
        match self.params {
            Some(p) => Ok(p),
            None => Err(ContractError::NotInitialized),
        }
    }

    /// Accrues simple interest with the contract's overflow checks.
    pub fn try_accrue(principal: i128, rate_bps: u32, elapsed_secs: u64) -> (r: Result<i128, ContractError>)
        ensures
            r == accrue_result(principal, rate_bps, elapsed_secs),
    {
        if principal <= 0 {
            return Ok(0);
        }
        let by_rate: i128 = match principal.checked_mul(rate_bps as i128) {
            None => return Err(ContractError::Overflow),
            Some(v) => v,
        };
        let product: i128 = match by_rate.checked_mul(elapsed_secs as i128) {
            None => return Err(ContractError::Overflow),
            Some(v) => v,
        };
        proof {
            lemma_nonneg_product(principal as int, rate_bps as int, elapsed_secs as int);
        }
        let interest: i128 = product / BPS_DENOMINATOR / SECONDS_PER_YEAR;
        match principal.checked_add(interest) {
            None => Err(ContractError::ArithmeticOverflow),
            Some(total) => Ok(total),
        }
    }

    /// Principal plus the interest accrued over `elapsed_secs` at `rate_bps`
    /// a year; 0 for a principal that is not positive.
    pub fn accrue(principal: i128, rate_bps: u32, elapsed_secs: u64) -> (total: i128)
        requires
            accrue_result(principal, rate_bps, elapsed_secs) is Ok,
        ensures
            total == accrue_value(principal as int, rate_bps as int, elapsed_secs as int),
    {
        match Self::try_accrue(principal, rate_bps, elapsed_secs) {
            Ok(total) => total,
            Err(_) => 0,
        }
    }
}

/// The rate never falls below the base rate nor rises above base plus slope.
pub proof fn lemma_rate_within_curve(p: RateParams, utilization_bps: int)
    requires
        utilization_bps >= 0,
    ensures
        p.base_bps <= rate_value(p, utilization_bps) <= p.base_bps + p.slope_bps,
{
    if utilization_bps <= p.optimal_util_bps {
        let d: int = curve_divisor(p);
        let s: int = p.slope_bps as int;
        assert(0 <= s * utilization_bps <= s * d) by (nonlinear_arith)
            requires
                s >= 0,
                0 <= utilization_bps <= d,
        ;
        lemma_div_is_ordered(0, s * utilization_bps, d);
        lemma_div_is_ordered(s * utilization_bps, s * d, d);
        lemma_div_multiples_vanish(s, d);
        assert(d * s == s * d) by (nonlinear_arith);
    }
}

/// The rate does not decrease as utilization rises.
pub proof fn lemma_rate_monotone(p: RateParams, lower_bps: int, higher_bps: int)
    requires
        0 <= lower_bps <= higher_bps,
    ensures
        rate_value(p, lower_bps) <= rate_value(p, higher_bps),
{
    lemma_rate_within_curve(p, lower_bps);
    if higher_bps <= p.optimal_util_bps {
        let s: int = p.slope_bps as int;
        assert(s * lower_bps <= s * higher_bps) by (nonlinear_arith)
            requires
                s >= 0,
                lower_bps <= higher_bps,
        ;
        lemma_div_is_ordered(s * lower_bps, s * higher_bps, curve_divisor(p));
    }
}

/// No time elapsed, no interest: accrual gives back the principal (0 for a
/// principal that is not positive).
pub proof fn lemma_accrue_without_time(principal: int, rate_bps: int)
    ensures
        accrue_value(principal, rate_bps, 0) == if principal > 0 { principal } else { 0 },
{
    assert(principal * rate_bps * 0 == 0) by (nonlinear_arith);
}

/// A positive principal never shrinks by accrual at a non-negative rate.
pub proof fn lemma_accrue_at_least_principal(principal: int, rate_bps: int, elapsed_secs: int)
    requires
        principal > 0,
        rate_bps >= 0,
        elapsed_secs >= 0,
    ensures
        accrue_value(principal, rate_bps, elapsed_secs) >= principal,
{
    lemma_nonneg_product(principal, rate_bps, elapsed_secs);
    lemma_div_is_ordered(0, principal * rate_bps * elapsed_secs, 10_000);
    lemma_div_is_ordered(0, principal * rate_bps * elapsed_secs / 10_000, 31_536_000);
}

/// Accrual does not decrease as time passes.
pub proof fn lemma_accrue_monotone_in_time(principal: int, rate_bps: int, earlier_secs: int, later_secs: int)
    requires
        rate_bps >= 0,
        0 <= earlier_secs <= later_secs,
    ensures
        accrue_value(principal, rate_bps, earlier_secs) <= accrue_value(principal, rate_bps, later_secs),
{
    if principal > 0 {
        let pr: int = principal * rate_bps;
        assert(pr * earlier_secs <= pr * later_secs) by (nonlinear_arith)
            requires
                principal > 0,
                rate_bps >= 0,
                pr == principal * rate_bps,
                earlier_secs <= later_secs,
        ;
        lemma_div_is_ordered(pr * earlier_secs, pr * later_secs, 10_000);
        lemma_div_is_ordered(pr * earlier_secs / 10_000, pr * later_secs / 10_000, 31_536_000);
    }
}

/// Accrual does not decrease as the principal grows (at a non-negative rate and time).
pub proof fn lemma_accrue_monotone_in_principal(smaller: int, larger: int, rate_bps: int, elapsed_secs: int)
    requires
        smaller <= larger,
        rate_bps >= 0,
        elapsed_secs >= 0,
    ensures
        accrue_value(smaller, rate_bps, elapsed_secs) <= accrue_value(larger, rate_bps, elapsed_secs),
{
    if larger > 0 {
        lemma_accrue_at_least_principal(larger, rate_bps, elapsed_secs);
    }
    if smaller > 0 {
        assert(smaller * rate_bps * elapsed_secs <= larger * rate_bps * elapsed_secs) by (nonlinear_arith)
            requires
                0 < smaller <= larger,
                rate_bps >= 0,
                elapsed_secs >= 0,
        ;
        lemma_div_is_ordered(smaller * rate_bps * elapsed_secs, larger * rate_bps * elapsed_secs, 10_000);
        lemma_div_is_ordered(
            smaller * rate_bps * elapsed_secs / 10_000,
            larger * rate_bps * elapsed_secs / 10_000,
            31_536_000,
        );
    }
}

/// Accrual does not decrease as the rate grows.
pub proof fn lemma_accrue_monotone_in_rate(principal: int, lower_bps: int, higher_bps: int, elapsed_secs: int)
    requires
        0 <= lower_bps <= higher_bps,
        elapsed_secs >= 0,
    ensures
        accrue_value(principal, lower_bps, elapsed_secs) <= accrue_value(principal, higher_bps, elapsed_secs),
{
    if principal > 0 {
        assert(principal * lower_bps * elapsed_secs <= principal * higher_bps * elapsed_secs) by (nonlinear_arith)
            requires
                principal > 0,
                lower_bps <= higher_bps,
                elapsed_secs >= 0,
        ;
        lemma_div_is_ordered(principal * lower_bps * elapsed_secs, principal * higher_bps * elapsed_secs, 10_000);
        lemma_div_is_ordered(
            principal * lower_bps * elapsed_secs / 10_000,
            principal * higher_bps * elapsed_secs / 10_000,
            31_536_000,
        );
    }
}

/// The rate curve in plain arithmetic: up to the optimal utilization the rate
/// is `base_bps + slope_bps * utilization_bps / optimal_util_bps` (dividing by 1
/// when the optimum is 0), rising linearly; above it, `base_bps + slope_bps`. The
/// rate is computed without overflow whenever `base_bps + slope_bps` and, up to
/// the optimum, `slope_bps * utilization_bps` fit in a `u32`.
pub proof fn lemma_rate_curve(p: RateParams, utilization_bps: int)
    requires
        utilization_bps >= 0,
    ensures
        utilization_bps <= p.optimal_util_bps ==> rate_value(p, utilization_bps) == p.base_bps
            + (p.slope_bps * utilization_bps) / (if p.optimal_util_bps > 0 { p.optimal_util_bps as int } else { 1int }),
        utilization_bps > p.optimal_util_bps ==> rate_value(p, utilization_bps) == p.base_bps + p.slope_bps,
        (p.base_bps + p.slope_bps <= u32::MAX
            && (utilization_bps <= p.optimal_util_bps ==> p.slope_bps * utilization_bps <= u32::MAX))
            ==> !rate_overflows(p, utilization_bps),
{
    lemma_rate_within_curve(p, utilization_bps);
    if utilization_bps <= p.optimal_util_bps {
        let s: int = p.slope_bps as int;
        assert(s * utilization_bps >= 0) by (nonlinear_arith)
            requires
                s >= 0,
                utilization_bps >= 0,
        ;
    }
}

/// Accrual in plain arithmetic: a positive principal grows by
/// `principal * rate_bps * elapsed_secs / 10_000 / 31_536_000`, anything else
/// accrues to 0; and the computation succeeds whenever the two products and the
/// final sum fit in an `i128`.
pub proof fn lemma_accrue_formula(principal: i128, rate_bps: u32, elapsed_secs: u64)
    ensures
        principal <= 0 ==> accrue_result(principal, rate_bps, elapsed_secs) == Ok::<i128, ContractError>(0),
        principal > 0 ==> accrue_value(principal as int, rate_bps as int, elapsed_secs as int)
            == principal + principal * rate_bps * elapsed_secs / 10_000 / 31_536_000,
        (principal > 0 && principal * rate_bps <= i128::MAX && principal * rate_bps * elapsed_secs <= i128::MAX
            && principal + principal * rate_bps * elapsed_secs / 10_000 / 31_536_000 <= i128::MAX)
            ==> accrue_result(principal, rate_bps, elapsed_secs) == Ok::<i128, ContractError>(
            (principal + principal * rate_bps * elapsed_secs / 10_000 / 31_536_000) as i128,
        ),
{
    if principal > 0 {
        lemma_nonneg_product(principal as int, rate_bps as int, elapsed_secs as int);
        lemma_div_is_ordered(0, principal * rate_bps * elapsed_secs, 10_000);
        lemma_div_is_ordered(0, principal * rate_bps * elapsed_secs / 10_000, 31_536_000);
    }
}

/// The parameters can be stored once: after a successful `init` every further
/// `init` is refused, and the rate afterwards is the curve of the stored parameters.
pub proof fn lemma_init_once(s: InterestStrategy, params: RateParams, again: RateParams)
    requires
        s.init_result(params) is Ok,
    ensures
        s.init_result(params)->Ok_0.params == Some(params),
        s.init_result(params)->Ok_0.init_result(again) == Err::<InterestStrategy, ContractError>(
            ContractError::AlreadyInitialized,
        ),
{
}

proof fn lemma_nonneg_product(p: int, r: int, e: int)
    requires
        p >= 0,
        r >= 0,
        e >= 0,
    ensures
        p * r >= 0,
        p * r * e >= 0,
{
    assert(p * r >= 0 && p * r * e >= 0) by (nonlinear_arith)
        requires
            p >= 0,
            r >= 0,
            e >= 0,
    ;
}

} // verus!
