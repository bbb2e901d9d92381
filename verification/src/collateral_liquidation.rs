//! Collateral escrow and liquidation: owners lock collateral tokens and unlock
//! them again; when an owner's loan is under-collateralised at the oracle price,
//! or has expired, a liquidator may repay part of the debt and receive
//! collateral at a discount.
//!
//! The instance storage of the contract is [`CollateralLiquidation`]; an
//! owner's position is passed to the entry points of that owner. A liquidation
//! is also handed the owner's loan, as the lending pool stores it, the oracle's
//! current price and the ledger time.
use vstd::prelude::*;

use vstd::arithmetic::div_mod::{lemma_div_is_ordered, lemma_fundamental_div_mod, lemma_mod_pos_bound};

use crate::common::{
    checked_pow10, fits_i128, pow10, trunc_div, Asset,
    ContractError, Party, TokenOp, BPS_DENOMINATOR,
};
use crate::lending_pool::{checked_outstanding, credit_loan, outstanding_checked, outstanding_debt, LendingPool, Loan};
use crate::oracle_interface::PriceData;

verus! {

/// Collateral escrowed for an owner.
#[derive(Debug, PartialEq, Eq)]
pub struct CollateralPosition<A> {
    pub amount: i128,
    pub owner: A,
}

/// The instance storage of the contract. `A` is the host's account address type.
#[derive(Debug)]
pub struct CollateralLiquidation<A> {
    pub admin: Option<A>,
    pub collateral_token: Option<A>,
    pub oracle: Option<A>,
    /// The liquidation discount, as a bonus in basis points on the value repaid.
    pub liquidation_bps: Option<u32>,
    /// The lending pool whose loans the collateral secures, and whose liquidity
    /// token liquidators repay in.
    pub lending_pool: Option<A>,
    /// The safe collateral ratio in basis points: a position is healthy while its
    /// value is at least `min_collateral_bps / 10_000` times the debt.
    pub min_collateral_bps: Option<u32>,
}

/// The amount locked in a stored position; 0 when there is none.
pub open spec fn locked_amount<A>(position: Option<CollateralPosition<A>>) -> int {
    match position {
        Some(p) => p.amount as int,
        None => 0,
    }
}

/// Whether a loan is past its term at ledger time `now`.
pub open spec fn loan_expired(loan: Loan, now: u64) -> bool {
    now >= loan.start_ts + loan.duration_secs
}

/// The value of `amount` collateral in debt units at `price`, which is scaled by
/// `scale` (ten to the price's decimals); rounded toward zero.
pub open spec fn collateral_value(amount: int, price: int, scale: int) -> int {
    trunc_div(amount * price, scale)
}

/// The outcome of the collateral-ratio test: `Ok` when the collateral is worth
/// less than `min_collateral_bps / 10_000` of the debt (so it may be liquidated),
/// `PositionHealthy` otherwise, `Overflow` when the `i128` arithmetic overflows.
pub open spec fn ratio_check(amount: i128, price: i128, scale: i128, debt: i128, min_collateral_bps: u32) -> Result<(), ContractError> {
    if !fits_i128(amount * price) {
        Err(ContractError::Overflow)
    } else if !fits_i128(collateral_value(amount as int, price as int, scale as int) * 10_000) {
        Err(ContractError::Overflow)
    } else if !fits_i128(debt * min_collateral_bps) {
        Err(ContractError::Overflow)
    } else if collateral_value(amount as int, price as int, scale as int) * 10_000 >= debt * min_collateral_bps {
        Err(ContractError::PositionHealthy)
    } else {
        Ok(())
    }
}

/// The collateral that repaying `repay_amount` buys: its value at `price` is the
/// repayment plus the `liquidation_bps` bonus, rounded down to whole units.
pub open spec fn discounted_units(repay_amount: int, liquidation_bps: int, price: int, scale: int) -> int {
    (repay_amount * (10_000 + liquidation_bps) * scale) / (price * 10_000)
}

/// The outcome of computing [`discounted_units`] in `i128` arithmetic.
pub open spec fn units_result(repay_amount: i128, liquidation_bps: u32, price: i128, scale: i128) -> Result<i128, ContractError> {
    if !fits_i128(repay_amount * (10_000 + liquidation_bps)) {
        Err(ContractError::Overflow)
    } else if !fits_i128(repay_amount * (10_000 + liquidation_bps) * scale) {
        Err(ContractError::Overflow)
    } else if !fits_i128(price * 10_000) {
        Err(ContractError::Overflow)
    } else {
        Ok(discounted_units(repay_amount as int, liquidation_bps as int, price as int, scale as int) as i128)
    }
}

/// Tests whether collateral of `amount` is worth less than the safe ratio of `debt`.
pub fn check_collateral_ratio(amount: i128, price: i128, scale: i128, debt: i128, min_collateral_bps: u32)
    -> (r: Result<(), ContractError>)
    requires
        scale > 0,
    ensures
        r == ratio_check(amount, price, scale, debt, min_collateral_bps),
{
    let product: i128 = match amount.checked_mul(price) {
        None => return Err(ContractError::Overflow),
        Some(v) => v,
    };
    let value: i128 = product / scale;
    let scaled_value: i128 = match value.checked_mul(BPS_DENOMINATOR) {
        None => return Err(ContractError::Overflow),
        Some(v) => v,
    };
    let required: i128 = match debt.checked_mul(min_collateral_bps as i128) {
        None => return Err(ContractError::Overflow),
        Some(v) => v,
    };
    if scaled_value >= required {
        Err(ContractError::PositionHealthy)
    } else {
        Ok(())
    }
}

/// The collateral units a liquidator receives for `repay_amount`, before the cap
/// at the position.
pub fn liquidation_units(repay_amount: i128, liquidation_bps: u32, price: i128, scale: i128)
    -> (r: Result<i128, ContractError>)
    requires
        repay_amount > 0,
        price > 0,
        scale > 0,
    ensures
        r == units_result(repay_amount, liquidation_bps, price, scale),
{
    let factor: i128 = BPS_DENOMINATOR + liquidation_bps as i128;
    let bought: i128 = match repay_amount.checked_mul(factor) {
        None => return Err(ContractError::Overflow),
        Some(v) => v,
    };
    let scaled: i128 = match bought.checked_mul(scale) {
        None => return Err(ContractError::Overflow),
        Some(v) => v,
    };
    let denominator: i128 = match price.checked_mul(BPS_DENOMINATOR) {
        None => return Err(ContractError::Overflow),
        Some(v) => v,
    };
    proof {
        lemma_positive_product(repay_amount as int, factor as int);
        lemma_positive_product(bought as int, scale as int);
    }
    Ok(scaled / denominator)
}

proof fn lemma_positive_product(a: int, b: int)
    requires
        a > 0,
        b > 0,
    ensures
        a * b > 0,
{
    assert(a * b > 0) by (nonlinear_arith)
        requires
            a > 0,
            b > 0,
    ;
}

impl<A> CollateralLiquidation<A> {
    /// The state that `init` produces, or its refusal.
    pub open spec fn init_result(
        self,
        admin: A,
        collateral_token: A,
        oracle: A,
        liquidation_bps: u32,
        lending_pool: A,
        min_collateral_bps: u32,
    ) -> Result<Self, ContractError> {
        if self.admin is Some {
            Err(ContractError::AlreadyInitialized)
        } else {
            Ok(CollateralLiquidation {
                admin: Some(admin),
                collateral_token: Some(collateral_token),
                oracle: Some(oracle),
                liquidation_bps: Some(liquidation_bps),
                lending_pool: Some(lending_pool),
                min_collateral_bps: Some(min_collateral_bps),
            })
        }
    }

    /// The owner's position after locking `amount`, or the refusal.
    pub open spec fn lock_result(self, position: Option<CollateralPosition<A>>, owner: A, amount: i128)
        -> Result<Option<CollateralPosition<A>>, ContractError>
    {
        if amount <= 0 {
            Err(ContractError::AmountNotPositive)
        } else if self.collateral_token is None {
            Err(ContractError::NotInitialized)
        } else if !fits_i128(locked_amount(position) + amount) {
            Err(ContractError::ArithmeticOverflow)
        } else {
            Ok(Some(CollateralPosition { amount: (locked_amount(position) + amount) as i128, owner }))
        }
    }

    /// The owner's position after unlocking `amount`, or the refusal. A position
    /// unlocked down to zero stays stored with amount 0.
    pub open spec fn unlock_result(self, position: Option<CollateralPosition<A>>, amount: i128)
        -> Result<Option<CollateralPosition<A>>, ContractError>
    {
        if amount <= 0 {
            Err(ContractError::AmountNotPositive)
        } else if position is None {
            Err(ContractError::PositionNotFound)
        } else if position.unwrap().amount < amount {
            Err(ContractError::InsufficientCollateral)
        } else if self.collateral_token is None {
            Err(ContractError::NotInitialized)
        } else {
            let p = position.unwrap();
            Ok(Some(CollateralPosition { amount: (p.amount - amount) as i128, owner: p.owner }))
        }
    }

    /// The collateral seized and the owner's position after a liquidation, or
    /// the refusal. `loan` is the owner's loan in the lending pool, whose
    /// outstanding debt is what counts, `price` the oracle's price of one
    /// collateral unit and `now` the ledger time. A position left empty is removed.
    pub open spec fn liquidate_result(
        self,
        position: Option<CollateralPosition<A>>,
        owner: A,
        repay_amount: i128,
        loan: Option<Loan>,
        price: PriceData,
        now: u64,
    ) -> Result<(i128, Option<CollateralPosition<A>>), ContractError> {
        if repay_amount <= 0 {
            Err(ContractError::AmountNotPositive)
        } else if position is None {
            Err(ContractError::PositionNotFound)
        } else if self.liquidation_bps is None || self.min_collateral_bps is None {
            Err(ContractError::NotInitialized)
        } else if loan is None || loan.unwrap().repaid {
            Err(ContractError::NoOpenLoan)
        } else if checked_outstanding(loan.unwrap()) is Err {
            Err(checked_outstanding(loan.unwrap())->Err_0)
        } else if repay_amount > checked_outstanding(loan.unwrap())->Ok_0 {
            Err(ContractError::RepaymentExceedsDebt)
        } else if price.price <= 0 {
            Err(ContractError::InvalidPrice)
        } else if !fits_i128(pow10(price.decimals as nat)) {
            Err(ContractError::Overflow)
        } else {
            let p = position.unwrap();
            let scale = pow10(price.decimals as nat) as i128;
            let debt = checked_outstanding(loan.unwrap())->Ok_0;
            let bps = self.liquidation_bps.unwrap();
            if !loan_expired(loan.unwrap(), now)
                && ratio_check(p.amount, price.price, scale, debt, self.min_collateral_bps.unwrap()) is Err {
                Err(ratio_check(p.amount, price.price, scale, debt, self.min_collateral_bps.unwrap())->Err_0)
            } else if units_result(repay_amount, bps, price.price, scale) is Err {
                Err(units_result(repay_amount, bps, price.price, scale)->Err_0)
            } else if self.collateral_token is None {
                Err(ContractError::NotInitialized)
            } else {
                let units = units_result(repay_amount, bps, price.price, scale)->Ok_0;
                let seize: int = if units > p.amount { p.amount as int } else { units as int };
                if !fits_i128(p.amount - seize) {
                    Err(ContractError::ArithmeticOverflow)
                } else if p.amount - seize == 0 {
                    Ok((seize as i128, None))
                } else {
                    Ok((seize as i128, Some(CollateralPosition { amount: (p.amount - seize) as i128, owner })))
                }
            }
        }
    }

    /// The state of a freshly deployed contract: nothing stored.
    pub fn new() -> (s: Self)
        ensures
            s.admin is None,
            s.collateral_token is None,
            s.oracle is None,
            s.liquidation_bps is None,
            s.lending_pool is None,
            s.min_collateral_bps is None,
    {
        CollateralLiquidation {
            admin: None,
            collateral_token: None,
            oracle: None,
            liquidation_bps: None,
            lending_pool: None,
            min_collateral_bps: None,
        }
    }

    /// Stores the admin, the collateral token, the oracle, the liquidation
    /// discount, the lending pool and the safe collateral ratio; refused when an
    /// admin is already stored.
    pub fn init(
        &mut self,
        admin: A,
        collateral_token: A,
        oracle: A,
        liquidation_bps: u32,
        lending_pool: A,
        min_collateral_bps: u32,
    ) -> (r: Result<(), ContractError>)
        ensures
            match r {
                Ok(()) => old(self).init_result(admin, collateral_token, oracle, liquidation_bps, lending_pool, min_collateral_bps)
                    == Ok::<Self, ContractError>(*final(self)),
                Err(e) => old(self).init_result(admin, collateral_token, oracle, liquidation_bps, lending_pool, min_collateral_bps)
                    == Err::<Self, ContractError>(e) && *final(self) == *old(self),
            },
    {
        if self.admin.is_some() {
            return Err(ContractError::AlreadyInitialized);
        }
        self.admin = Some(admin);
        self.collateral_token = Some(collateral_token);
        self.oracle = Some(oracle);
        self.liquidation_bps = Some(liquidation_bps);
        self.lending_pool = Some(lending_pool);
        self.min_collateral_bps = Some(min_collateral_bps);
        Ok(())
    }

    /// The owner escrows `amount` more collateral with the contract.
    pub fn lock(&self, position: &mut Option<CollateralPosition<A>>, owner: A, amount: i128)
        -> (r: Result<Vec<TokenOp>, ContractError>)
        ensures
            match r {
                Ok(ops) => {
                    &&& self.lock_result(*old(position), owner, amount)
                        == Ok::<Option<CollateralPosition<A>>, ContractError>(*final(position))
                    &&& ops@ == seq![
                        TokenOp::Transfer { asset: Asset::Collateral, from: Party::Caller, to: Party::Contract, amount },
                    ]
                },
                Err(e) => {
                    &&& self.lock_result(*old(position), owner, amount)
                        == Err::<Option<CollateralPosition<A>>, ContractError>(e)
                    &&& *final(position) == *old(position)
                },
            },
    {
        if amount <= 0 {
            return Err(ContractError::AmountNotPositive);
        }
        if self.collateral_token.is_none() {
            return Err(ContractError::NotInitialized);
        }
        let existing: i128 = match position {
            Some(p) => p.amount,
            None => 0,
        };
        let total: i128 = match existing.checked_add(amount) {
            None => return Err(ContractError::ArithmeticOverflow),
            Some(v) => v,
        };
        *position = Some(CollateralPosition { amount: total, owner });
        let mut ops: Vec<TokenOp> = Vec::new();
        ops.push(TokenOp::Transfer { asset: Asset::Collateral, from: Party::Caller, to: Party::Contract, amount });
        Ok(ops)
    }

    /// The owner takes `amount` of escrowed collateral back.
    pub fn unlock(&self, position: &mut Option<CollateralPosition<A>>, amount: i128)
        -> (r: Result<Vec<TokenOp>, ContractError>)
        ensures
            match r {
                Ok(ops) => {
                    &&& self.unlock_result(*old(position), amount)
                        == Ok::<Option<CollateralPosition<A>>, ContractError>(*final(position))
                    &&& ops@ == seq![
                        TokenOp::Transfer { asset: Asset::Collateral, from: Party::Contract, to: Party::Caller, amount },
                    ]
                },
                Err(e) => {
                    &&& self.unlock_result(*old(position), amount)
                        == Err::<Option<CollateralPosition<A>>, ContractError>(e)
                    &&& *final(position) == *old(position)
                },
            },
    {
        if amount <= 0 {
            return Err(ContractError::AmountNotPositive);
        }
        let held: i128 = match position {
            None => return Err(ContractError::PositionNotFound),
            Some(p) => p.amount,
        };
        if held < amount {
            return Err(ContractError::InsufficientCollateral);
        }
        if self.collateral_token.is_none() {
            return Err(ContractError::NotInitialized);
        }
        match position {
            Some(p) => {
                p.amount = held - amount;
            },
            None => {},
        }
        let mut ops: Vec<TokenOp> = Vec::new();
        ops.push(TokenOp::Transfer { asset: Asset::Collateral, from: Party::Contract, to: Party::Caller, amount });
        Ok(ops)
    }

    /// A liquidator repays `repay_amount` of the owner's debt to the lending
    /// pool, which credits it to the owner's loan, and receives collateral worth
    /// the repayment plus the liquidation bonus at the oracle price, capped by the
    /// position. Refused unless the owner has an open loan that is expired or
    /// under-collateralised. `loan` ends as the loan after the repayment.
    pub fn liquidate(
        &self,
        position: &mut Option<CollateralPosition<A>>,
        owner: A,
        repay_amount: i128,
        loan: &mut Option<Loan>,
        price: PriceData,
        now: u64,
    ) -> (r: Result<Vec<TokenOp>, ContractError>)
        ensures
            match r {
                Ok(ops) => {
                    let (seized, after) = self.liquidate_result(*old(position), owner, repay_amount, *old(loan), price, now)->Ok_0;
                    &&& self.liquidate_result(*old(position), owner, repay_amount, *old(loan), price, now) is Ok
                    &&& after == *final(position)
                    &&& *final(loan) == Some(credit_loan(old(loan).unwrap(), repay_amount as int))
                    &&& ops@ == seq![
                        TokenOp::RepayToPool { from: Party::Caller, amount: repay_amount },
                        TokenOp::Transfer { asset: Asset::Collateral, from: Party::Contract, to: Party::Caller, amount: seized },
                    ]
                },
                Err(e) => {
                    &&& self.liquidate_result(*old(position), owner, repay_amount, *old(loan), price, now)
                        == Err::<(i128, Option<CollateralPosition<A>>), ContractError>(e)
                    &&& *final(position) == *old(position)
                    &&& *final(loan) == *old(loan)
                },
            },
    {
        if repay_amount <= 0 {
            return Err(ContractError::AmountNotPositive);
        }
        let held: i128 = match position {
            None => return Err(ContractError::PositionNotFound),
            Some(p) => p.amount,
        };
        let bonus_bps: u32 = match self.liquidation_bps {
            None => return Err(ContractError::NotInitialized),
            Some(bps) => bps,
        };
        let min_bps: u32 = match self.min_collateral_bps {
            None => return Err(ContractError::NotInitialized),
            Some(bps) => bps,
        };
        let open: Loan = match loan {
            Some(l) => {
                if l.repaid {
                    return Err(ContractError::NoOpenLoan);
                }
                *l
            },
            None => return Err(ContractError::NoOpenLoan),
        };
        let debt: i128 = match outstanding_checked(&open) {
            Err(e) => return Err(e),
            Ok(v) => v,
        };
        if repay_amount > debt {
            return Err(ContractError::RepaymentExceedsDebt);
        }
        if price.price <= 0 {
            return Err(ContractError::InvalidPrice);
        }
        let scale: i128 = match checked_pow10(price.decimals) {
            None => return Err(ContractError::Overflow),
            Some(v) => v,
        };
        proof {
            crate::common::lemma_pow10_grows(0, price.decimals as nat);
        }
        let expired: bool = match open.start_ts.checked_add(open.duration_secs) {
            None => false,
            Some(end) => now >= end,
        };
        if !expired {
            match check_collateral_ratio(held, price.price, scale, debt, min_bps) {
                Err(e) => return Err(e),
                Ok(()) => {},
            }
        }
        let units: i128 = match liquidation_units(repay_amount, bonus_bps, price.price, scale) {
            Err(e) => return Err(e),
            Ok(v) => v,
        };
        let seize: i128 = if units > held { held } else { units };
        if self.collateral_token.is_none() {
            return Err(ContractError::NotInitialized);
        }
        let remaining: i128 = match held.checked_sub(seize) {
            None => return Err(ContractError::ArithmeticOverflow),
            Some(v) => v,
        };
        if remaining == 0 {
            *position = None;
        } else {
            *position = Some(CollateralPosition { amount: remaining, owner });
        }
        *loan = Some(Loan { credited: open.credited + repay_amount, repaid: repay_amount >= debt, ..open });
        let mut ops: Vec<TokenOp> = Vec::new();
        ops.push(TokenOp::RepayToPool { from: Party::Caller, amount: repay_amount });
        ops.push(TokenOp::Transfer { asset: Asset::Collateral, from: Party::Contract, to: Party::Caller, amount: seize });
        Ok(ops)
    }
}

/// The contract is initialised once: after a successful `init`, every further `init` is refused.
pub proof fn lemma_init_once<A>(
    contract: CollateralLiquidation<A>,
    admin: A,
    collateral_token: A,
    oracle: A,
    liquidation_bps: u32,
    lending_pool: A,
    min_collateral_bps: u32,
    again: A,
)
    requires
        contract.init_result(admin, collateral_token, oracle, liquidation_bps, lending_pool, min_collateral_bps) is Ok,
    ensures
        contract.init_result(admin, collateral_token, oracle, liquidation_bps, lending_pool, min_collateral_bps)->Ok_0
            .init_result(again, again, again, liquidation_bps, again, min_collateral_bps)
            == Err::<CollateralLiquidation<A>, ContractError>(ContractError::AlreadyInitialized),
{
}

/// Unlocking what was just locked gives the owner back the amount held before
/// (a position that did not exist is left with amount 0).
pub proof fn lemma_lock_then_unlock<A>(contract: CollateralLiquidation<A>, position: Option<CollateralPosition<A>>, owner: A, amount: i128)
    requires
        locked_amount(position) >= 0,
        contract.lock_result(position, owner, amount) is Ok,
    ensures
        contract.unlock_result(contract.lock_result(position, owner, amount)->Ok_0, amount)
            == Ok::<Option<CollateralPosition<A>>, ContractError>(
            Some(CollateralPosition { amount: locked_amount(position) as i128, owner }),
        ),
{
}

/// Locking and unlocking in plain arithmetic. A lock is accepted exactly when
/// the amount is positive, the contract is initialised and the new total fits,
/// and leaves the owner's position holding what it held (0 without a position)
/// plus the amount. An unlock is accepted exactly when the amount is positive,
/// the owner has a position holding at least that much and the contract is
/// initialised, and leaves the position holding the rest.
pub proof fn lemma_lock_unlock_amounts<A>(
    contract: CollateralLiquidation<A>,
    position: Option<CollateralPosition<A>>,
    owner: A,
    amount: i128,
)
    ensures
        ({
            let held: int = match position { Some(p) => p.amount as int, None => 0 };
            &&& (contract.lock_result(position, owner, amount) is Ok) <==> (amount > 0
                && contract.collateral_token is Some && held + amount <= i128::MAX)
            &&& contract.lock_result(position, owner, amount) is Ok ==> contract.lock_result(position, owner, amount)
                == Ok::<Option<CollateralPosition<A>>, ContractError>(
                Some(CollateralPosition { amount: (held + amount) as i128, owner }),
            )
        }),
        (contract.unlock_result(position, amount) is Ok) <==> (amount > 0 && position is Some
            && position.unwrap().amount >= amount && contract.collateral_token is Some),
        contract.unlock_result(position, amount) is Ok ==> contract.unlock_result(position, amount)
            == Ok::<Option<CollateralPosition<A>>, ContractError>(
            Some(CollateralPosition { amount: (position.unwrap().amount - amount) as i128, owner: position.unwrap().owner }),
        ),
{
}

/// Locked collateral never becomes negative.
pub proof fn lemma_collateral_stays_nonnegative<A>(
    contract: CollateralLiquidation<A>,
    position: Option<CollateralPosition<A>>,
    owner: A,
    amount: i128,
    loan: Option<Loan>,
    price: PriceData,
    now: u64,
)
    requires
        locked_amount(position) >= 0,
    ensures
        contract.lock_result(position, owner, amount) matches Ok(p) ==> locked_amount(p) >= 0,
        contract.unlock_result(position, amount) matches Ok(p) ==> locked_amount(p) >= 0,
        contract.liquidate_result(position, owner, amount, loan, price, now) matches Ok((_, p)) ==> locked_amount(p) >= 0,
{
}

/// Only unhealthy positions are liquidated: a liquidation succeeds only for an
/// owner with an open loan and a position such that either the loan's term is
/// over (`now >= start_ts + duration_secs`) or the collateral's value at the
/// oracle price, `amount * price / 10^decimals` rounded toward zero, times
/// 10_000 is below the outstanding debt (principal plus
/// `principal * interest_bps / 10_000` rounded toward zero, less what was
/// credited) times `min_collateral_bps`; and it repays no more than that debt.
pub proof fn lemma_only_unhealthy_positions_liquidated<A>(
    contract: CollateralLiquidation<A>,
    position: Option<CollateralPosition<A>>,
    owner: A,
    repay_amount: i128,
    loan: Option<Loan>,
    price: PriceData,
    now: u64,
)
    requires
        contract.liquidate_result(position, owner, repay_amount, loan, price, now) is Ok,
    ensures
        position is Some,
        loan matches Some(l) && !l.repaid && {
            let product: int = l.principal * l.interest_bps;
            let interest: int = if product >= 0 { product / 10_000 } else { -((-product) / 10_000) };
            let debt: int = l.principal + interest - l.credited;
            let held: int = position.unwrap().amount * price.price;
            let scale: int = pow10(price.decimals as nat);
            let value: int = if held >= 0 { held / scale } else { -((-held) / scale) };
            &&& 0 < repay_amount <= debt
            &&& price.price > 0
            &&& (now >= l.start_ts + l.duration_secs || value * 10_000 < debt * contract.min_collateral_bps.unwrap())
        },
{
}

/// A liquidation is carried out for every owner whose open loan is past its
/// term or whose collateral is worth less than the safe ratio of the debt, as
/// long as the contract is initialised, the repayment is positive and at most
/// the outstanding debt, the price is positive and no arithmetic overflows. The
/// liquidator receives `repay_amount * (10_000 + liquidation_bps) * 10^decimals /
/// (price * 10_000)` units, rounded down, or the whole position if that is
/// less; the position keeps the rest and is removed when nothing is left.
pub proof fn lemma_liquidation_accepted<A>(
    contract: CollateralLiquidation<A>,
    position: Option<CollateralPosition<A>>,
    owner: A,
    repay_amount: i128,
    loan: Option<Loan>,
    price: PriceData,
    now: u64,
)
    requires
        repay_amount > 0,
        position matches Some(p) && p.amount >= 0,
        contract.liquidation_bps is Some,
        contract.min_collateral_bps is Some,
        contract.collateral_token is Some,
        loan matches Some(l) && !l.repaid,
        price.price > 0,
        pow10(price.decimals as nat) <= i128::MAX,
        ({
            let l = loan.unwrap();
            let product: int = l.principal * l.interest_bps;
            let interest: int = if product >= 0 { product / 10_000 } else { -((-product) / 10_000) };
            let debt: int = l.principal + interest - l.credited;
            let amount: int = position.unwrap().amount as int;
            let scale: int = pow10(price.decimals as nat);
            let held: int = amount * price.price;
            let value: int = held / scale;
            let bps: int = contract.liquidation_bps.unwrap() as int;
            &&& i128::MIN <= product <= i128::MAX
            &&& i128::MIN <= l.principal + interest <= i128::MAX
            &&& i128::MIN <= debt <= i128::MAX
            &&& repay_amount <= debt
            &&& (now >= l.start_ts + l.duration_secs || {
                &&& held <= i128::MAX
                &&& value * 10_000 <= i128::MAX
                &&& i128::MIN <= debt * contract.min_collateral_bps.unwrap() <= i128::MAX
                &&& value * 10_000 < debt * contract.min_collateral_bps.unwrap()
            })
            &&& repay_amount * (10_000 + bps) * scale <= i128::MAX
            &&& price.price * 10_000 <= i128::MAX
        }),
    ensures
        contract.liquidate_result(position, owner, repay_amount, loan, price, now) is Ok,
        ({
            let amount: int = position.unwrap().amount as int;
            let scale: int = pow10(price.decimals as nat);
            let bps: int = contract.liquidation_bps.unwrap() as int;
            let units: int = (repay_amount * (10_000 + bps) * scale) / (price.price * 10_000);
            let seized_expected: int = if units > amount { amount } else { units };
            let (seized, after) = contract.liquidate_result(position, owner, repay_amount, loan, price, now)->Ok_0;
            &&& seized == seized_expected
            &&& (amount - seized_expected == 0 ==> after is None)
            &&& (amount - seized_expected != 0 ==> after == Some(CollateralPosition { amount: (amount - seized_expected) as i128, owner }))
        }),
{
    let l = loan.unwrap();
    let scale: int = pow10(price.decimals as nat);
    crate::common::lemma_pow10_grows(0, price.decimals as nat);
    let amount: int = position.unwrap().amount as int;
    let held: int = amount * price.price;
    assert(held >= 0) by (nonlinear_arith)
        requires
            amount >= 0,
            price.price > 0,
            held == amount * price.price,
    ;
    let bps: int = contract.liquidation_bps.unwrap() as int;
    let r: int = repay_amount as int;
    let x: int = r * (10_000 + bps) * scale;
    let f: int = r * (10_000 + bps);
    assert(f > 0 && x > 0 && f <= x) by (nonlinear_arith)
        requires
            r > 0,
            bps >= 0,
            scale > 0,
            f == r * (10_000 + bps),
            x == f * scale,
    ;
    let d: int = price.price * 10_000;
    lemma_div_is_ordered(0, x, d);
}

/// A liquidation with a non-negative position gives the liquidator between
/// zero and the position, never more collateral than the repayment plus the
/// bonus is worth at the oracle price, and exactly that (rounded down) when the
/// position suffices; what is seized leaves the position, which is removed
/// exactly when it is emptied.
pub proof fn lemma_liquidation_bounds<A>(
    contract: CollateralLiquidation<A>,
    position: Option<CollateralPosition<A>>,
    owner: A,
    repay_amount: i128,
    loan: Option<Loan>,
    price: PriceData,
    now: u64,
)
    requires
        locked_amount(position) >= 0,
        contract.liquidate_result(position, owner, repay_amount, loan, price, now) is Ok,
    ensures
        ({
            let (seized, after) = contract.liquidate_result(position, owner, repay_amount, loan, price, now)->Ok_0;
            let bps = contract.liquidation_bps.unwrap() as int;
            let scale = pow10(price.decimals as nat);
            let units = discounted_units(repay_amount as int, bps, price.price as int, scale);
            &&& 0 <= seized <= locked_amount(position)
            &&& seized <= units
            &&& (units <= locked_amount(position) ==> seized == units)
            &&& seized * price.price * 10_000 <= repay_amount * (10_000 + bps) * scale
            &&& (units <= locked_amount(position)
                ==> (seized + 1) * price.price * 10_000 > repay_amount * (10_000 + bps) * scale)
            &&& locked_amount(after) + seized == locked_amount(position)
            &&& (after is None <==> seized == locked_amount(position))
        }),
{
    let bps = contract.liquidation_bps.unwrap() as int;
    let scale = pow10(price.decimals as nat);
    crate::common::lemma_pow10_grows(0, price.decimals as nat);
    let r = repay_amount as int;
    let pr = price.price as int;
    let x = r * (10_000 + bps) * scale;
    let d = pr * 10_000;
    assert(x > 0 && d > 0) by (nonlinear_arith)
        requires
            r > 0,
            bps >= 0,
            scale > 0,
            pr > 0,
            x == r * (10_000 + bps) * scale,
            d == pr * 10_000,
    ;
    lemma_div_is_ordered(0, x, d);
    lemma_fundamental_div_mod(x, d);
    lemma_mod_pos_bound(x, d);
    let (seized, after) = contract.liquidate_result(position, owner, repay_amount, loan, price, now)->Ok_0;
    let u = x / d;
    assert(u * d <= x) by (nonlinear_arith)
        requires
            x == d * u + x % d,
            x % d >= 0,
    ;
    let s = seized as int;
    assert(s * pr * 10_000 <= x) by (nonlinear_arith)
        requires
            0 <= s <= u,
            u * d <= x,
            d == pr * 10_000,
            pr > 0,
    ;
    if u <= locked_amount(position) {
        assert((s + 1) * pr * 10_000 > x) by (nonlinear_arith)
            requires
                s == u,
                x == d * u + x % d,
                x % d < d,
                d == pr * 10_000,
        ;
    }
}

/// A liquidation repays the owner's debt: the loan it leaves owes exactly the
/// repayment less than before (closing when nothing is left), and the lending
/// pool, credited the same payment through `repay_for`, records that same loan
/// and takes the payment into its liquidity. The pool accepts the payment unless
/// it is not initialised or its arithmetic overflows.
pub proof fn lemma_liquidation_repays_debt<A, B>(
    contract: CollateralLiquidation<A>,
    position: Option<CollateralPosition<A>>,
    owner: A,
    repay_amount: i128,
    loan: Option<Loan>,
    price: PriceData,
    now: u64,
    pool: LendingPool<B>,
)
    requires
        contract.liquidate_result(position, owner, repay_amount, loan, price, now) is Ok,
    ensures
        ({
            let after = credit_loan(loan.unwrap(), repay_amount as int);
            &&& outstanding_debt(after) == outstanding_debt(loan.unwrap()) - repay_amount
            &&& 0 < repay_amount <= outstanding_debt(loan.unwrap())
            &&& (after.repaid <==> outstanding_debt(after) == 0)
            &&& match pool.repay_for_result(loan, repay_amount) {
                Ok((p, l)) => l == Some(after) && p.available_liquidity == pool.available_liquidity + repay_amount,
                Err(e) => e == ContractError::NotInitialized || e == ContractError::ArithmeticOverflow,
            }
        }),
{
}

} // verus!
