//! The lending pool: lenders deposit liquidity against pool shares, borrowers
//! take loans out of the pooled liquidity and repay them with interest.
//!
//! The instance storage of the contract is [`LendingPool`]; the per-account
//! entries (a lender's shares, a borrower's loan) are passed to the entry
//! points of the account that a call concerns.
use vstd::prelude::*;

use vstd::arithmetic::div_mod::{
    lemma_div_by_multiple, lemma_div_is_ordered, lemma_fundamental_div_mod, lemma_mod_pos_bound,
};

use crate::common::{
    amount_due_checked, checked_loan_due, fits_i128, fits_u32, lemma_due_at_least_principal, loan_due,
    trunc_div, Asset, ContractError, Party, TokenOp, BPS_DENOMINATOR,
};
use crate::interest_strategy::{lemma_rate_curve, rate_overflows, rate_value, RateParams};

verus! {

/// A borrower's loan record.
#[derive(Clone, Copy, Debug, PartialEq, Eq, Structural)]
pub struct Loan {
    pub principal: i128,
    pub interest_bps: u32,
    pub start_ts: u64,
    pub duration_secs: u64,
    pub repaid: bool,
    /// What others (liquidators) have paid toward the loan.
    pub credited: i128,
}

/// What is still owed on a loan: principal plus interest, less what others paid.
pub open spec fn outstanding_debt(loan: Loan) -> int {
    loan_due(loan.principal as int, loan.interest_bps as int) - loan.credited
}

/// The outstanding debt computed in `i128`, refused when the arithmetic overflows.
pub open spec fn checked_outstanding(loan: Loan) -> Result<i128, ContractError> {
    if checked_loan_due(loan.principal, loan.interest_bps) is Err {
        Err(checked_loan_due(loan.principal, loan.interest_bps)->Err_0)
    } else if !fits_i128(outstanding_debt(loan)) {
        Err(ContractError::ArithmeticOverflow)
    } else {
        Ok(outstanding_debt(loan) as i128)
    }
}

/// The loan after someone else pays `amount` toward it: the payment is
/// credited, and the loan is repaid once nothing is outstanding.
pub open spec fn credit_loan(loan: Loan, amount: int) -> Loan {
    Loan { credited: (loan.credited + amount) as i128, repaid: amount >= outstanding_debt(loan), ..loan }
}

/// Computes what is still owed on a loan.
pub fn outstanding_checked(loan: &Loan) -> (r: Result<i128, ContractError>)
    ensures
        r == checked_outstanding(*loan),
{
    let due: i128 = match amount_due_checked(loan.principal, loan.interest_bps) {
        Err(e) => return Err(e),
        Ok(v) => v,
    };
    match due.checked_sub(loan.credited) {
        None => Err(ContractError::ArithmeticOverflow),
        Some(v) => Ok(v),
    }
}

/// The instance storage of a lending pool. `A` is the host's account address type.
///
/// Pool shares are claims on the pool's assets: the liquidity it holds plus the
/// principal it has lent out. Interest repaid by borrowers therefore raises what
/// every share redeems for.
#[derive(Debug)]
pub struct LendingPool<A> {
    pub admin: Option<A>,
    pub liquidity_token: Option<A>,
    pub pool_token: Option<A>,
    pub interest_strategy: Option<A>,
    /// Liquidity held by the pool and not lent out; 0 when never written.
    pub available_liquidity: i128,
    /// Pool shares held by all lenders together; 0 when never written.
    pub total_shares: i128,
    /// Principal of the loans not yet repaid; 0 when never written.
    pub total_borrowed: i128,
}

impl<A> LendingPool<A> {
    /// The same pool with other balances.
    pub open spec fn with_balances(self, available: int, total_shares: int, total_borrowed: int) -> Self {
        LendingPool {
            admin: self.admin,
            liquidity_token: self.liquidity_token,
            pool_token: self.pool_token,
            interest_strategy: self.interest_strategy,
            available_liquidity: available as i128,
            total_shares: total_shares as i128,
            total_borrowed: total_borrowed as i128,
        }
    }

    /// What the pool owns: its liquidity plus the principal lent out.
    pub open spec fn total_assets(self) -> int {
        self.available_liquidity + self.total_borrowed
    }

    /// Whether shares are priced one to one: no shares outstanding, or nothing
    /// owned to price them by.
    pub open spec fn one_to_one(self) -> bool {
        self.total_shares == 0 || self.total_assets() <= 0
    }

    /// The shares a deposit of `amount` mints: as many as `amount` when priced one
    /// to one, otherwise `amount * total_shares / total_assets`, rounded toward zero.
    pub open spec fn shares_for_deposit(self, amount: int) -> int {
        if self.one_to_one() {
            amount
        } else {
            trunc_div(amount * self.total_shares, self.total_assets())
        }
    }

    /// The liquidity that redeeming `shares` pays: `shares * total_assets / total_shares`,
    /// rounded down; nothing when the pool owns nothing.
    pub open spec fn payout_for_shares(self, shares: int) -> int {
        if self.total_assets() <= 0 {
            0
        } else {
            (shares * self.total_assets()) / (self.total_shares as int)
        }
    }

    /// What every operation keeps: no negative liquidity or total of shares.
    pub open spec fn wf(self) -> bool {
        self.available_liquidity >= 0 && self.total_shares >= 0
    }

    /// The share of the pool's assets that is lent out, in basis points; 0 when
    /// nothing is lent or the pool owns nothing.
    pub open spec fn utilization_value(self) -> int {
        if self.total_assets() <= 0 || self.total_borrowed <= 0 {
            0
        } else {
            (self.total_borrowed * 10_000) / self.total_assets()
        }
    }

    /// The utilization as a `u32`, refused when its arithmetic overflows.
    pub open spec fn utilization_result(self) -> Result<u32, ContractError> {
        if !fits_i128(self.total_assets()) {
            Err(ContractError::ArithmeticOverflow)
        } else if self.total_assets() > 0 && self.total_borrowed > 0 && !fits_i128(self.total_borrowed * 10_000) {
            Err(ContractError::ArithmeticOverflow)
        } else if !fits_u32(self.utilization_value()) {
            Err(ContractError::ArithmeticOverflow)
        } else {
            Ok(self.utilization_value() as u32)
        }
    }

    /// The state that `init` produces, or its refusal.
    pub open spec fn init_result(self, admin: A, liquidity_token: A, pool_token: A, interest_strategy: A)
        -> Result<Self, ContractError>
    {
        if self.admin is Some {
            Err(ContractError::AlreadyInitialized)
        } else {
            Ok(LendingPool {
                admin: Some(admin),
                liquidity_token: Some(liquidity_token),
                pool_token: Some(pool_token),
                interest_strategy: Some(interest_strategy),
                available_liquidity: 0,
                total_shares: 0,
                total_borrowed: 0,
            })
        }
    }

    /// The pool, the lender's shares and the shares minted after a deposit, or
    /// its refusal.
    pub open spec fn deposit_result(self, shares: i128, amount: i128) -> Result<(Self, i128, i128), ContractError> {
        if amount <= 0 {
            Err(ContractError::AmountNotPositive)
        } else if self.liquidity_token is None {
            Err(ContractError::NotInitialized)
        } else if !fits_i128(self.total_assets()) {
            Err(ContractError::ArithmeticOverflow)
        } else if !self.one_to_one() && !fits_i128(amount * self.total_shares) {
            Err(ContractError::ArithmeticOverflow)
        } else if self.shares_for_deposit(amount as int) <= 0 {
            Err(ContractError::DepositTooSmall)
        } else if !fits_i128(shares + self.shares_for_deposit(amount as int)) {
            Err(ContractError::ArithmeticOverflow)
        } else if self.pool_token is None {
            Err(ContractError::NotInitialized)
        } else if !fits_i128(self.available_liquidity + amount) {
            Err(ContractError::ArithmeticOverflow)
        } else if !fits_i128(self.total_shares + self.shares_for_deposit(amount as int)) {
            Err(ContractError::ArithmeticOverflow)
        } else {
            let minted = self.shares_for_deposit(amount as int);
            Ok((
                self.with_balances(self.available_liquidity + amount, self.total_shares + minted, self.total_borrowed as int),
                (shares + minted) as i128,
                minted as i128,
            ))
        }
    }

    /// The pool, the lender's shares and the liquidity paid out after `amount`
    /// shares are redeemed, or the refusal.
    pub open spec fn withdraw_result(self, shares: i128, amount: i128) -> Result<(Self, i128, i128), ContractError> {
        if amount <= 0 {
            Err(ContractError::AmountNotPositive)
        } else if shares < amount || self.total_shares < amount {
            Err(ContractError::InsufficientShares)
        } else if !fits_i128(self.total_assets()) {
            Err(ContractError::ArithmeticOverflow)
        } else if self.total_assets() > 0 && !fits_i128(amount * self.total_assets()) {
            Err(ContractError::ArithmeticOverflow)
        } else if self.available_liquidity < self.payout_for_shares(amount as int) {
            Err(ContractError::InsufficientLiquidity)
        } else if self.pool_token is None {
            Err(ContractError::NotInitialized)
        } else if self.liquidity_token is None {
            Err(ContractError::NotInitialized)
        } else {
            let payout = self.payout_for_shares(amount as int);
            Ok((
                self.with_balances(self.available_liquidity - payout, self.total_shares - amount, self.total_borrowed as int),
                (shares - amount) as i128,
                payout as i128,
            ))
        }
    }

    /// The pool and the borrower's loan after a loan is originated, or its
    /// refusal. The loan is priced by the rate strategy `strategy` at the pool's
    /// current utilization; the borrower accepts rates up to `max_interest_bps`.
    pub open spec fn originate_loan_result(
        self,
        loan: Option<Loan>,
        amount: i128,
        duration_secs: u64,
        max_interest_bps: u32,
        strategy: RateParams,
        now: u64,
    ) -> Result<(Self, Option<Loan>), ContractError> {
        if amount <= 0 {
            Err(ContractError::AmountNotPositive)
        } else if duration_secs == 0 {
            Err(ContractError::DurationNotPositive)
        } else if loan matches Some(existing) && !existing.repaid {
            Err(ContractError::ExistingLoanNotRepaid)
        } else if self.available_liquidity < amount {
            Err(ContractError::InsufficientLiquidity)
        } else if self.utilization_result() is Err {
            Err(self.utilization_result()->Err_0)
        } else if rate_overflows(strategy, self.utilization_value()) {
            Err(ContractError::ArithmeticOverflow)
        } else if rate_value(strategy, self.utilization_value()) > max_interest_bps {
            Err(ContractError::RateAboveLimit)
        } else if !fits_i128(self.total_borrowed + amount) {
            Err(ContractError::ArithmeticOverflow)
        } else if self.liquidity_token is None {
            Err(ContractError::NotInitialized)
        } else {
            Ok((
                self.with_balances(
                    self.available_liquidity - amount,
                    self.total_shares as int,
                    self.total_borrowed + amount,
                ),
                Some(Loan {
                    principal: amount,
                    interest_bps: rate_value(strategy, self.utilization_value()) as u32,
                    start_ts: now,
                    duration_secs,
                    repaid: false,
                    credited: 0,
                }),
            ))
        }
    }

    /// The pool and the borrower's loan after the borrower pays `amount`, or
    /// the refusal. The loan is closed only when `amount` covers what is
    /// outstanding, and its principal then stops counting as lent out; a smaller
    /// payment is kept by the pool and the loan stays open.
    pub open spec fn repay_result(self, loan: Option<Loan>, amount: i128) -> Result<(Self, Option<Loan>), ContractError> {
        if amount <= 0 {
            Err(ContractError::AmountNotPositive)
        } else if loan is None {
            Err(ContractError::LoanNotFound)
        } else if loan.unwrap().repaid {
            Err(ContractError::LoanAlreadyRepaid)
        } else if self.liquidity_token is None {
            Err(ContractError::NotInitialized)
        } else if checked_outstanding(loan.unwrap()) is Err {
            Err(checked_outstanding(loan.unwrap())->Err_0)
        } else if !fits_i128(self.available_liquidity + amount) {
            Err(ContractError::ArithmeticOverflow)
        } else if amount >= outstanding_debt(loan.unwrap()) && !fits_i128(self.total_borrowed - loan.unwrap().principal) {
            Err(ContractError::ArithmeticOverflow)
        } else {
            let l = loan.unwrap();
            if amount >= outstanding_debt(l) {
                Ok((
                    self.with_balances(
                        self.available_liquidity + amount,
                        self.total_shares as int,
                        self.total_borrowed - l.principal,
                    ),
                    Some(Loan { repaid: true, ..l }),
                ))
            } else {
                Ok((
                    self.with_balances(
                        self.available_liquidity + amount,
                        self.total_shares as int,
                        self.total_borrowed as int,
                    ),
                    loan,
                ))
            }
        }
    }

    /// The pool and the borrower's loan after someone other than the borrower
    /// (a liquidator) pays `amount` toward the loan, or the refusal. The payment
    /// is credited to the loan, which closes once nothing is outstanding.
    pub open spec fn repay_for_result(self, loan: Option<Loan>, amount: i128) -> Result<(Self, Option<Loan>), ContractError> {
        if amount <= 0 {
            Err(ContractError::AmountNotPositive)
        } else if loan is None {
            Err(ContractError::LoanNotFound)
        } else if loan.unwrap().repaid {
            Err(ContractError::LoanAlreadyRepaid)
        } else if self.liquidity_token is None {
            Err(ContractError::NotInitialized)
        } else if checked_outstanding(loan.unwrap()) is Err {
            Err(checked_outstanding(loan.unwrap())->Err_0)
        } else if amount > outstanding_debt(loan.unwrap()) {
            Err(ContractError::RepaymentExceedsDebt)
        } else if !fits_i128(self.available_liquidity + amount) {
            Err(ContractError::ArithmeticOverflow)
        } else if amount == outstanding_debt(loan.unwrap()) && !fits_i128(self.total_borrowed - loan.unwrap().principal) {
            Err(ContractError::ArithmeticOverflow)
        } else {
            let l = loan.unwrap();
            Ok((
                self.with_balances(
                    self.available_liquidity + amount,
                    self.total_shares as int,
                    if amount == outstanding_debt(l) { self.total_borrowed - l.principal } else { self.total_borrowed as int },
                ),
                Some(credit_loan(l, amount as int)),
            ))
        }
    }

    /// The state of a freshly deployed pool: nothing stored.
    pub fn new() -> (s: Self)
        ensures
            s.admin is None,
            s.liquidity_token is None,
            s.pool_token is None,
            s.interest_strategy is None,
            s.available_liquidity == 0,
            s.total_shares == 0,
            s.total_borrowed == 0,
    {
        LendingPool {
            admin: None,
            liquidity_token: None,
            pool_token: None,
            interest_strategy: None,
            available_liquidity: 0,
            total_shares: 0,
            total_borrowed: 0,
        }
    }

    /// Stores the admin and the three contract addresses and zero balances;
    /// refused when an admin is already stored.
    pub fn init(&mut self, admin: A, liquidity_token: A, pool_token: A, interest_strategy: A) -> (r: Result<(), ContractError>)
        ensures
            match r {
                Ok(()) => old(self).init_result(admin, liquidity_token, pool_token, interest_strategy)
                    == Ok::<Self, ContractError>(*final(self)),
                Err(e) => old(self).init_result(admin, liquidity_token, pool_token, interest_strategy)
                    == Err::<Self, ContractError>(e) && *final(self) == *old(self),
            },
    {
        if self.admin.is_some() {
            return Err(ContractError::AlreadyInitialized);
        }
        self.admin = Some(admin);
        self.liquidity_token = Some(liquidity_token);
        self.pool_token = Some(pool_token);
        self.interest_strategy = Some(interest_strategy);
        self.available_liquidity = 0;
        self.total_shares = 0;
        self.total_borrowed = 0;
        Ok(())
    }

    /// A lender deposits `amount` of liquidity and is minted pool shares in
    /// proportion to the pool's assets (one to one for the first deposit).
    /// On success the caller pays the pool and is minted the shares.
    pub fn deposit(&mut self, shares: &mut i128, amount: i128) -> (r: Result<Vec<TokenOp>, ContractError>)
        ensures
            match r {
                Ok(ops) => {
                    let (after, after_shares, minted) = old(self).deposit_result(*old(shares), amount)->Ok_0;
                    &&& old(self).deposit_result(*old(shares), amount) is Ok
                    &&& *final(self) == after
                    &&& *final(shares) == after_shares
                    &&& ops@ == seq![
                        TokenOp::Transfer { asset: Asset::Liquidity, from: Party::Caller, to: Party::Contract, amount },
                        TokenOp::Mint { asset: Asset::PoolShare, to: Party::Caller, amount: minted },
                    ]
                },
                Err(e) => {
                    &&& old(self).deposit_result(*old(shares), amount) == Err::<(Self, i128, i128), ContractError>(e)
                    &&& *final(self) == *old(self)
                    &&& *final(shares) == *old(shares)
                },
            },
            old(self).wf() && *old(shares) >= 0 ==> final(self).wf() && *final(shares) >= 0,
    {
        if amount <= 0 {
            return Err(ContractError::AmountNotPositive);
        }
        if self.liquidity_token.is_none() {
            return Err(ContractError::NotInitialized);
        }
        let assets: i128 = match self.available_liquidity.checked_add(self.total_borrowed) {
            None => return Err(ContractError::ArithmeticOverflow),
            Some(v) => v,
        };
        let minted: i128 = if self.total_shares == 0 || assets <= 0 {
            amount
        } else {
            match amount.checked_mul(self.total_shares) {
                None => return Err(ContractError::ArithmeticOverflow),
                Some(v) => v / assets,
            }
        };
        if minted <= 0 {
            return Err(ContractError::DepositTooSmall);
        }
        let new_shares: i128 = match shares.checked_add(minted) {
            None => return Err(ContractError::ArithmeticOverflow),
            Some(v) => v,
        };
        if self.pool_token.is_none() {
            return Err(ContractError::NotInitialized);
        }
        let new_available: i128 = match self.available_liquidity.checked_add(amount) {
            None => return Err(ContractError::ArithmeticOverflow),
            Some(v) => v,
        };
        let new_total: i128 = match self.total_shares.checked_add(minted) {
            None => return Err(ContractError::ArithmeticOverflow),
            Some(v) => v,
        };
        *shares = new_shares;
        self.available_liquidity = new_available;
        self.total_shares = new_total;
        let mut ops: Vec<TokenOp> = Vec::new();
        ops.push(TokenOp::Transfer { asset: Asset::Liquidity, from: Party::Caller, to: Party::Contract, amount });
        ops.push(TokenOp::Mint { asset: Asset::PoolShare, to: Party::Caller, amount: minted });
        Ok(ops)
    }

    /// A lender redeems `amount` pool shares for their part of the pool's
    /// assets: the shares are burnt and the liquidity paid out.
    pub fn withdraw(&mut self, shares: &mut i128, amount: i128) -> (r: Result<Vec<TokenOp>, ContractError>)
        ensures
            match r {
                Ok(ops) => {
                    let (after, after_shares, payout) = old(self).withdraw_result(*old(shares), amount)->Ok_0;
                    &&& old(self).withdraw_result(*old(shares), amount) is Ok
                    &&& *final(self) == after
                    &&& *final(shares) == after_shares
                    &&& ops@ == seq![
                        TokenOp::Burn { asset: Asset::PoolShare, from: Party::Caller, amount },
                        TokenOp::Transfer { asset: Asset::Liquidity, from: Party::Contract, to: Party::Caller, amount: payout },
                    ]
                },
                Err(e) => {
                    &&& old(self).withdraw_result(*old(shares), amount) == Err::<(Self, i128, i128), ContractError>(e)
                    &&& *final(self) == *old(self)
                    &&& *final(shares) == *old(shares)
                },
            },
            old(self).wf() && *old(shares) >= 0 ==> final(self).wf() && *final(shares) >= 0,
    {
        if amount <= 0 {
            return Err(ContractError::AmountNotPositive);
        }
        if *shares < amount || self.total_shares < amount {
            return Err(ContractError::InsufficientShares);
        }
        let assets: i128 = match self.available_liquidity.checked_add(self.total_borrowed) {
            None => return Err(ContractError::ArithmeticOverflow),
            Some(v) => v,
        };
        let payout: i128 = if assets <= 0 {
            0
        } else {
            match amount.checked_mul(assets) {
                None => return Err(ContractError::ArithmeticOverflow),
                Some(v) => v / self.total_shares,
            }
        };
        if self.available_liquidity < payout {
            return Err(ContractError::InsufficientLiquidity);
        }
        if self.pool_token.is_none() || self.liquidity_token.is_none() {
            return Err(ContractError::NotInitialized);
        }
        *shares = *shares - amount;
        self.total_shares = self.total_shares - amount;
        self.available_liquidity = self.available_liquidity - payout;
        let mut ops: Vec<TokenOp> = Vec::new();
        ops.push(TokenOp::Burn { asset: Asset::PoolShare, from: Party::Caller, amount });
        ops.push(TokenOp::Transfer { asset: Asset::Liquidity, from: Party::Contract, to: Party::Caller, amount: payout });
        Ok(ops)
    }

    /// The pool's utilization in basis points: principal lent out over assets.
    pub fn utilization_bps(&self) -> (r: Result<u32, ContractError>)
        ensures
            r == self.utilization_result(),
    {
        let assets: i128 = match self.available_liquidity.checked_add(self.total_borrowed) {
            None => return Err(ContractError::ArithmeticOverflow),
            Some(v) => v,
        };
        if assets <= 0 || self.total_borrowed <= 0 {
            return Ok(0);
        }
        let lent: i128 = match self.total_borrowed.checked_mul(BPS_DENOMINATOR) {
            None => return Err(ContractError::ArithmeticOverflow),
            Some(v) => v,
        };
        let ratio: i128 = lent / assets;
        if ratio > u32::MAX as i128 {
            return Err(ContractError::ArithmeticOverflow);
        }
        Ok(ratio as u32)
    }

    /// A borrower takes a loan of `amount` out of the available liquidity, for
    /// the duration given, starting at ledger time `now`. The rate is the rate
    /// strategy's (`strategy`) at the pool's utilization; the call is refused
    /// when it exceeds `max_interest_bps`, the most the borrower accepts.
    pub fn originate_loan(
        &mut self,
        loan: &mut Option<Loan>,
        amount: i128,
        duration_secs: u64,
        max_interest_bps: u32,
        strategy: &RateParams,
        now: u64,
    ) -> (r: Result<Vec<TokenOp>, ContractError>)
        ensures
            match r {
                Ok(ops) => {
                    &&& old(self).originate_loan_result(*old(loan), amount, duration_secs, max_interest_bps, *strategy, now)
                        == Ok::<(Self, Option<Loan>), ContractError>((*final(self), *final(loan)))
                    &&& ops@ == seq![
                        TokenOp::Transfer { asset: Asset::Liquidity, from: Party::Contract, to: Party::Caller, amount },
                    ]
                },
                Err(e) => {
                    &&& old(self).originate_loan_result(*old(loan), amount, duration_secs, max_interest_bps, *strategy, now)
                        == Err::<(Self, Option<Loan>), ContractError>(e)
                    &&& *final(self) == *old(self)
                    &&& *final(loan) == *old(loan)
                },
            },
            old(self).wf() ==> final(self).wf(),
    {
        if amount <= 0 {
            return Err(ContractError::AmountNotPositive);
        }
        if duration_secs == 0 {
            return Err(ContractError::DurationNotPositive);
        }
        if let Some(existing) = loan {
            if !existing.repaid {
                return Err(ContractError::ExistingLoanNotRepaid);
            }
        }
        if self.available_liquidity < amount {
            return Err(ContractError::InsufficientLiquidity);
        }
        let utilization: u32 = match self.utilization_bps() {
            Err(e) => return Err(e),
            Ok(v) => v,
        };
        let rate: u32 = match strategy.rate_bps(utilization) {
            Err(e) => return Err(e),
            Ok(v) => v,
        };
        if rate > max_interest_bps {
            return Err(ContractError::RateAboveLimit);
        }
        let new_borrowed: i128 = match self.total_borrowed.checked_add(amount) {
            None => return Err(ContractError::ArithmeticOverflow),
            Some(v) => v,
        };
        if self.liquidity_token.is_none() {
            return Err(ContractError::NotInitialized);
        }
        *loan = Some(Loan { principal: amount, interest_bps: rate, start_ts: now, duration_secs, repaid: false, credited: 0 });
        self.available_liquidity = self.available_liquidity - amount;
        self.total_borrowed = new_borrowed;
        let mut ops: Vec<TokenOp> = Vec::new();
        ops.push(TokenOp::Transfer { asset: Asset::Liquidity, from: Party::Contract, to: Party::Caller, amount });
        Ok(ops)
    }

    /// A borrower pays `amount` toward the loan; the loan is closed when the
    /// payment covers what is outstanding.
    pub fn repay(&mut self, loan: &mut Option<Loan>, amount: i128) -> (r: Result<Vec<TokenOp>, ContractError>)
        ensures
            match r {
                Ok(ops) => {
                    &&& old(self).repay_result(*old(loan), amount)
                        == Ok::<(Self, Option<Loan>), ContractError>((*final(self), *final(loan)))
                    &&& ops@ == seq![
                        TokenOp::Transfer { asset: Asset::Liquidity, from: Party::Caller, to: Party::Contract, amount },
                    ]
                },
                Err(e) => {
                    &&& old(self).repay_result(*old(loan), amount) == Err::<(Self, Option<Loan>), ContractError>(e)
                    &&& *final(self) == *old(self)
                    &&& *final(loan) == *old(loan)
                },
            },
            old(self).wf() ==> final(self).wf(),
    {
        if amount <= 0 {
            return Err(ContractError::AmountNotPositive);
        }
        let current: Loan = match loan {
            None => return Err(ContractError::LoanNotFound),
            Some(l) => *l,
        };
        if current.repaid {
            return Err(ContractError::LoanAlreadyRepaid);
        }
        if self.liquidity_token.is_none() {
            return Err(ContractError::NotInitialized);
        }
        let owed: i128 = match outstanding_checked(&current) {
            Err(e) => return Err(e),
            Ok(v) => v,
        };
        let new_available: i128 = match self.available_liquidity.checked_add(amount) {
            None => return Err(ContractError::ArithmeticOverflow),
            Some(v) => v,
        };
        if amount >= owed {
            let new_borrowed: i128 = match self.total_borrowed.checked_sub(current.principal) {
                None => return Err(ContractError::ArithmeticOverflow),
                Some(v) => v,
            };
            *loan = Some(Loan { repaid: true, ..current });
            self.total_borrowed = new_borrowed;
        }
        self.available_liquidity = new_available;
        let mut ops: Vec<TokenOp> = Vec::new();
        ops.push(TokenOp::Transfer { asset: Asset::Liquidity, from: Party::Caller, to: Party::Contract, amount });
        Ok(ops)
    }

    /// The caller pays `amount` toward another account's loan (as a liquidator
    /// does); the payment goes to the pool and is credited to the loan, which
    /// closes once nothing is outstanding.
    pub fn repay_for(&mut self, loan: &mut Option<Loan>, amount: i128) -> (r: Result<Vec<TokenOp>, ContractError>)
        ensures
            match r {
                Ok(ops) => {
                    &&& old(self).repay_for_result(*old(loan), amount)
                        == Ok::<(Self, Option<Loan>), ContractError>((*final(self), *final(loan)))
                    &&& ops@ == seq![
                        TokenOp::Transfer { asset: Asset::Liquidity, from: Party::Caller, to: Party::Contract, amount },
                    ]
                },
                Err(e) => {
                    &&& old(self).repay_for_result(*old(loan), amount) == Err::<(Self, Option<Loan>), ContractError>(e)
                    &&& *final(self) == *old(self)
                    &&& *final(loan) == *old(loan)
                },
            },
            old(self).wf() ==> final(self).wf(),
    {
        if amount <= 0 {
            return Err(ContractError::AmountNotPositive);
        }
        let current: Loan = match loan {
            None => return Err(ContractError::LoanNotFound),
            Some(l) => *l,
        };
        if current.repaid {
            return Err(ContractError::LoanAlreadyRepaid);
        }
        if self.liquidity_token.is_none() {
            return Err(ContractError::NotInitialized);
        }
        let owed: i128 = match outstanding_checked(&current) {
            Err(e) => return Err(e),
            Ok(v) => v,
        };
        if amount > owed {
            return Err(ContractError::RepaymentExceedsDebt);
        }
        let new_available: i128 = match self.available_liquidity.checked_add(amount) {
            None => return Err(ContractError::ArithmeticOverflow),
            Some(v) => v,
        };
        if amount == owed {
            let new_borrowed: i128 = match self.total_borrowed.checked_sub(current.principal) {
                None => return Err(ContractError::ArithmeticOverflow),
                Some(v) => v,
            };
            self.total_borrowed = new_borrowed;
        }
        *loan = Some(Loan { credited: current.credited + amount, repaid: amount >= owed, ..current });
        self.available_liquidity = new_available;
        let mut ops: Vec<TokenOp> = Vec::new();
        ops.push(TokenOp::Transfer { asset: Asset::Liquidity, from: Party::Caller, to: Party::Contract, amount });
        Ok(ops)
    }

    /// What a loan's borrower owes: principal plus `principal * interest_bps / 10_000`.
    pub fn amount_due(loan: &Loan) -> (due: i128)
        requires
            checked_loan_due(loan.principal, loan.interest_bps) is Ok,
        ensures
            due == loan_due(loan.principal as int, loan.interest_bps as int),
    {
        match amount_due_checked(loan.principal, loan.interest_bps) {
            Ok(v) => v,
            Err(_) => 0,
        }
    }

    /// The liquidity available for withdrawals and loans.
    pub fn get_available_liquidity(&self) -> (r: i128)
        ensures
            r == self.available_liquidity,
    {
        self.available_liquidity
    }

    /// The lender's pool shares as stored for an account: 0 when nothing is stored.
    pub fn get_lender_shares(stored: Option<i128>) -> (r: i128)
        ensures
            r == match stored {
                Some(v) => v,
                None => 0,
            },
    {
        match stored {
            Some(v) => v,
            None => 0,
        }
    }

    /// The liquidity token; refused before `init`.
    pub fn get_liquidity_token(&self) -> (r: Result<&A, ContractError>)
        ensures
            match self.liquidity_token {
                Some(a) => r == Ok::<&A, ContractError>(&a),
                None => r == Err::<&A, ContractError>(ContractError::NotInitialized),
            },
    {
        match &self.liquidity_token {
            Some(a) => Ok(a),
            None => Err(ContractError::NotInitialized),
        }
    }

    /// The pool-share token; refused before `init`.
    pub fn get_pool_token(&self) -> (r: Result<&A, ContractError>)
        ensures
            match self.pool_token {
                Some(a) => r == Ok::<&A, ContractError>(&a),
                None => r == Err::<&A, ContractError>(ContractError::NotInitialized),
            },
    {
        match &self.pool_token {
            Some(a) => Ok(a),
            None => Err(ContractError::NotInitialized),
        }
    }

    /// The interest-strategy contract; refused before `init`.
    pub fn get_interest_strategy(&self) -> (r: Result<&A, ContractError>)
        ensures
            match self.interest_strategy {
                Some(a) => r == Ok::<&A, ContractError>(&a),
                None => r == Err::<&A, ContractError>(ContractError::NotInitialized),
            },
    {
        match &self.interest_strategy {
            Some(a) => Ok(a),
            None => Err(ContractError::NotInitialized),
        }
    }
}


/// A pool is initialised once: after a successful `init`, every further `init` is refused.
pub proof fn lemma_init_once<A>(pool: LendingPool<A>, admin: A, liquidity_token: A, pool_token: A, interest_strategy: A, again: A)
    requires
        pool.init_result(admin, liquidity_token, pool_token, interest_strategy) is Ok,
    ensures
        pool.init_result(admin, liquidity_token, pool_token, interest_strategy)->Ok_0
            .init_result(again, again, again, again) == Err::<LendingPool<A>, ContractError>(ContractError::AlreadyInitialized),
{
}

/// The first deposit into a pool without shares, liquidity or loans mints one
/// share per token, and redeeming those shares right away pays the deposit back
/// exactly (when `amount * amount` fits the `i128` arithmetic of redemption).
pub proof fn lemma_first_deposit_one_to_one<A>(pool: LendingPool<A>, shares: i128, amount: i128)
    requires
        pool.total_shares == 0,
        pool.available_liquidity == 0,
        pool.total_borrowed == 0,
        shares >= 0,
        fits_i128(amount * amount),
        pool.deposit_result(shares, amount) is Ok,
    ensures
        ({
            let (after, after_shares, minted) = pool.deposit_result(shares, amount)->Ok_0;
            &&& minted == amount
            &&& after.withdraw_result(after_shares, minted) is Ok
            &&& after.withdraw_result(after_shares, minted)->Ok_0.2 == amount
        }),
{
    let a = amount as int;
    lemma_div_by_multiple(a, a);
}

/// Shares are priced fairly: a lender who deposits into a pool with shares and
/// assets and redeems the minted shares straight away gets back at most the deposit.
pub proof fn lemma_deposit_then_redeem_no_gain<A>(pool: LendingPool<A>, shares: i128, amount: i128)
    requires
        pool.total_shares > 0,
        pool.total_assets() > 0,
        pool.deposit_result(shares, amount) is Ok,
    ensures
        ({
            let (after, after_shares, minted) = pool.deposit_result(shares, amount)->Ok_0;
            after.payout_for_shares(minted as int) <= amount
        }),
{
    let (after, after_shares, minted) = pool.deposit_result(shares, amount)->Ok_0;
    let a = amount as int;
    let s = pool.total_shares as int;
    let assets = pool.total_assets();
    let m = minted as int;
    assert(a * s >= 0) by (nonlinear_arith)
        requires
            a > 0,
            s > 0,
    ;
    lemma_fundamental_div_mod(a * s, assets);
    lemma_mod_pos_bound(a * s, assets);
    assert(m == (a * s) / assets);
    assert(m * assets <= a * s) by (nonlinear_arith)
        requires
            a * s == assets * m + (a * s) % assets,
            (a * s) % assets >= 0,
    ;
    assert(m * (assets + a) <= a * (s + m)) by (nonlinear_arith)
        requires
            m * assets <= a * s,
    ;
    assert(after.total_assets() == assets + a);
    assert(after.total_shares == s + m);
    lemma_div_is_ordered(m * (assets + a), a * (s + m), s + m);
    lemma_div_by_multiple(a, s + m);
}

/// Redemption is proportional: `shares` of `total_shares` pay that fraction of
/// the pool's assets, rounded down, and burn exactly those shares.
pub proof fn lemma_redemption_is_proportional<A>(pool: LendingPool<A>, shares: i128, amount: i128)
    requires
        pool.total_assets() > 0,
        pool.withdraw_result(shares, amount) is Ok,
    ensures
        ({
            let (after, after_shares, payout) = pool.withdraw_result(shares, amount)->Ok_0;
            &&& payout == (amount * pool.total_assets()) / (pool.total_shares as int)
            &&& after.total_shares == pool.total_shares - amount
            &&& after_shares == shares - amount
            &&& after.available_liquidity == pool.available_liquidity - payout
        }),
{
}

/// Interest belongs to the lenders: a borrower's payment that closes a loan
/// raises the pool's assets by what was paid beyond the principal, with the
/// shares unchanged, so every share redeems for at least as much as before when
/// the payment covers the principal.
pub proof fn lemma_repayment_raises_share_value<A>(pool: LendingPool<A>, loan: Option<Loan>, amount: i128, shares: int)
    requires
        pool.repay_result(loan, amount) is Ok,
        pool.total_shares > 0,
        pool.total_assets() > 0,
        0 <= shares,
        amount >= outstanding_debt(loan.unwrap()),
        amount >= loan.unwrap().principal,
    ensures
        ({
            let (after, _) = pool.repay_result(loan, amount)->Ok_0;
            &&& after.total_shares == pool.total_shares
            &&& after.total_assets() == pool.total_assets() + amount - loan.unwrap().principal
            &&& after.total_assets() >= pool.total_assets()
            &&& after.payout_for_shares(shares) >= pool.payout_for_shares(shares)
        }),
{
    let (after, _) = pool.repay_result(loan, amount)->Ok_0;
    assert(shares * pool.total_assets() <= shares * after.total_assets()) by (nonlinear_arith)
        requires
            shares >= 0,
            pool.total_assets() <= after.total_assets(),
    ;
    lemma_div_is_ordered(shares * pool.total_assets(), shares * after.total_assets(), pool.total_shares as int);
}

/// No operation makes the available liquidity, the total of shares or a
/// lender's shares negative.
pub proof fn lemma_balances_stay_nonnegative<A>(
    pool: LendingPool<A>,
    shares: i128,
    loan: Option<Loan>,
    amount: i128,
    duration_secs: u64,
    max_interest_bps: u32,
    strategy: RateParams,
    now: u64,
)
    requires
        pool.wf(),
        shares >= 0,
    ensures
        pool.deposit_result(shares, amount) matches Ok((p, s, _)) ==> p.wf() && s >= 0,
        pool.withdraw_result(shares, amount) matches Ok((p, s, _)) ==> p.wf() && s >= 0,
        pool.originate_loan_result(loan, amount, duration_secs, max_interest_bps, strategy, now) matches Ok((p, _)) ==> p.wf(),
        pool.repay_result(loan, amount) matches Ok((p, _)) ==> p.wf(),
        pool.repay_for_result(loan, amount) matches Ok((p, _)) ==> p.wf(),
{
}

/// Loans are priced by the rate strategy: a new loan's rate is the strategy's
/// rate at the pool's utilization when it is taken, and no more than the
/// borrower accepted.
pub proof fn lemma_loan_rate_from_strategy<A>(
    pool: LendingPool<A>,
    loan: Option<Loan>,
    amount: i128,
    duration_secs: u64,
    max_interest_bps: u32,
    strategy: RateParams,
    now: u64,
)
    requires
        pool.originate_loan_result(loan, amount, duration_secs, max_interest_bps, strategy, now) is Ok,
    ensures
        ({
            let (_, new_loan) = pool.originate_loan_result(loan, amount, duration_secs, max_interest_bps, strategy, now)->Ok_0;
            &&& new_loan is Some
            &&& new_loan.unwrap().interest_bps == rate_value(strategy, pool.utilization_value())
            &&& new_loan.unwrap().interest_bps <= max_interest_bps
            &&& pool.utilization_result() == Ok::<u32, ContractError>(pool.utilization_value() as u32)
        }),
{
}

/// A borrower has at most one open loan: once a loan is originated, every
/// further origination for that borrower is refused until it is repaid.
pub proof fn lemma_one_open_loan<A>(
    pool: LendingPool<A>,
    loan: Option<Loan>,
    amount: i128,
    duration_secs: u64,
    max_interest_bps: u32,
    strategy: RateParams,
    now: u64,
    next_amount: i128,
    next_duration_secs: u64,
    next_max_interest_bps: u32,
    next_strategy: RateParams,
    later: u64,
)
    requires
        pool.originate_loan_result(loan, amount, duration_secs, max_interest_bps, strategy, now) is Ok,
        next_amount > 0,
        next_duration_secs > 0,
    ensures
        ({
            let (after, open_loan) = pool.originate_loan_result(loan, amount, duration_secs, max_interest_bps, strategy, now)->Ok_0;
            &&& open_loan matches Some(l) && !l.repaid && l.principal == amount && l.credited == 0
            &&& after.originate_loan_result(open_loan, next_amount, next_duration_secs, next_max_interest_bps, next_strategy, later)
                == Err::<(LendingPool<A>, Option<Loan>), ContractError>(ContractError::ExistingLoanNotRepaid)
        }),
{
}

/// A borrower's payment covering what is outstanding closes the loan: it is
/// marked repaid and further payments are refused. A smaller payment leaves the
/// loan open. Either way the pool keeps the whole payment.
pub proof fn lemma_repayment_closes_loan<A>(
    pool: LendingPool<A>,
    loan: Option<Loan>,
    amount: i128,
    next_amount: i128,
)
    requires
        pool.repay_result(loan, amount) is Ok,
        next_amount > 0,
    ensures
        ({
            let (after, after_loan) = pool.repay_result(loan, amount)->Ok_0;
            let owed: int = outstanding_debt(loan.unwrap());
            &&& amount >= owed ==> after_loan == Some(Loan { repaid: true, ..loan.unwrap() })
            &&& amount >= owed ==> after.repay_result(after_loan, next_amount)
                == Err::<(LendingPool<A>, Option<Loan>), ContractError>(ContractError::LoanAlreadyRepaid)
            &&& amount < owed ==> after_loan == loan
            &&& after.available_liquidity == pool.available_liquidity + amount
        }),
{
}

/// A payment toward someone else's loan reduces what is outstanding by exactly
/// that payment and reaches the pool's liquidity; the loan closes when nothing
/// is left outstanding, and more than is outstanding is refused.
pub proof fn lemma_third_party_payment_reduces_debt<A>(pool: LendingPool<A>, loan: Option<Loan>, amount: i128)
    requires
        pool.repay_for_result(loan, amount) is Ok,
    ensures
        ({
            let (after, after_loan) = pool.repay_for_result(loan, amount)->Ok_0;
            &&& after_loan is Some
            &&& outstanding_debt(after_loan.unwrap()) == outstanding_debt(loan.unwrap()) - amount
            &&& 0 < amount <= outstanding_debt(loan.unwrap())
            &&& (after_loan.unwrap().repaid <==> outstanding_debt(after_loan.unwrap()) == 0)
            &&& after.available_liquidity == pool.available_liquidity + amount
        }),
{
}

/// Lending and then repaying in full leaves the pool with at least the assets
/// and the liquidity it had: the principal comes back with non-negative interest.
pub proof fn lemma_loan_cycle_keeps_liquidity<A>(
    pool: LendingPool<A>,
    loan: Option<Loan>,
    amount: i128,
    duration_secs: u64,
    max_interest_bps: u32,
    strategy: RateParams,
    now: u64,
    payment: i128,
)
    requires
        pool.originate_loan_result(loan, amount, duration_secs, max_interest_bps, strategy, now) is Ok,
        ({
            let (lent, open_loan) = pool.originate_loan_result(loan, amount, duration_secs, max_interest_bps, strategy, now)->Ok_0;
            &&& lent.repay_result(open_loan, payment) is Ok
            &&& payment >= loan_due(amount as int, open_loan.unwrap().interest_bps as int)
        }),
    ensures
        ({
            let (lent, open_loan) = pool.originate_loan_result(loan, amount, duration_secs, max_interest_bps, strategy, now)->Ok_0;
            let (repaid, closed_loan) = lent.repay_result(open_loan, payment)->Ok_0;
            &&& repaid.available_liquidity >= pool.available_liquidity
            &&& repaid.total_borrowed == pool.total_borrowed
            &&& repaid.total_assets() >= pool.total_assets()
            &&& closed_loan matches Some(l) && l.repaid
        }),
{
    let (lent, open_loan) = pool.originate_loan_result(loan, amount, duration_secs, max_interest_bps, strategy, now)->Ok_0;
    lemma_due_at_least_principal(amount as int, open_loan.unwrap().interest_bps as int);
}

/// A deposit is accepted whenever the pool is initialised, the amount is
/// positive, no arithmetic overflows and it buys at least one share, however
/// much is lent out. It then mints `amount * total_shares / (available + borrowed)`
/// shares (rounded down), or `amount` when the pool has no shares or owns nothing;
/// the liquidity grows by the amount and the loans are untouched.
pub proof fn lemma_deposit_accepted<A>(pool: LendingPool<A>, shares: i128, amount: i128)
    requires
        amount > 0,
        pool.liquidity_token is Some,
        pool.pool_token is Some,
        pool.total_shares >= 0,
        i128::MIN <= pool.available_liquidity + pool.total_borrowed <= i128::MAX,
        pool.total_shares != 0 && pool.available_liquidity + pool.total_borrowed > 0
            ==> amount * pool.total_shares <= i128::MAX,
        ({
            let assets: int = pool.available_liquidity + pool.total_borrowed;
            let minted: int = if pool.total_shares == 0 || assets <= 0 {
                amount as int
            } else {
                (amount * pool.total_shares) / assets
            };
            &&& minted >= 1
            &&& shares + minted <= i128::MAX
            &&& pool.available_liquidity + amount <= i128::MAX
            &&& pool.total_shares + minted <= i128::MAX
        }),
    ensures
        pool.deposit_result(shares, amount) is Ok,
        ({
            let assets: int = pool.available_liquidity + pool.total_borrowed;
            let minted: int = if pool.total_shares == 0 || assets <= 0 {
                amount as int
            } else {
                (amount * pool.total_shares) / assets
            };
            let (after, after_shares, minted_result) = pool.deposit_result(shares, amount)->Ok_0;
            &&& minted_result == minted
            &&& after_shares == shares + minted
            &&& after.available_liquidity == pool.available_liquidity + amount
            &&& after.total_shares == pool.total_shares + minted
            &&& after.total_borrowed == pool.total_borrowed
            &&& after.liquidity_token == pool.liquidity_token
            &&& after.pool_token == pool.pool_token
        }),
{
    let assets: int = pool.available_liquidity + pool.total_borrowed;
    if pool.total_shares != 0 && assets > 0 {
        let x: int = amount * pool.total_shares;
        assert(x >= 0) by (nonlinear_arith)
            requires
                amount > 0,
                pool.total_shares >= 0,
                x == amount * pool.total_shares,
        ;
    }
}

/// A redemption of `amount` shares is accepted whenever the pool is
/// initialised, the lender and the pool hold that many shares, no arithmetic
/// overflows and the pool holds the payout. The payout is
/// `amount * (available + borrowed) / total_shares`, rounded down (0 when the
/// pool owns nothing); the shares are burnt and the payout leaves the liquidity.
pub proof fn lemma_withdraw_accepted<A>(pool: LendingPool<A>, shares: i128, amount: i128)
    requires
        amount > 0,
        shares >= amount,
        pool.total_shares >= amount,
        pool.liquidity_token is Some,
        pool.pool_token is Some,
        i128::MIN <= pool.available_liquidity + pool.total_borrowed <= i128::MAX,
        pool.available_liquidity + pool.total_borrowed > 0
            ==> amount * (pool.available_liquidity + pool.total_borrowed) <= i128::MAX,
        ({
            let assets: int = pool.available_liquidity + pool.total_borrowed;
            let payout: int = if assets <= 0 { 0 } else { (amount * assets) / (pool.total_shares as int) };
            payout <= pool.available_liquidity
        }),
    ensures
        pool.withdraw_result(shares, amount) is Ok,
        ({
            let assets: int = pool.available_liquidity + pool.total_borrowed;
            let payout: int = if assets <= 0 { 0 } else { (amount * assets) / (pool.total_shares as int) };
            let (after, after_shares, paid) = pool.withdraw_result(shares, amount)->Ok_0;
            &&& paid == payout
            &&& after_shares == shares - amount
            &&& after.total_shares == pool.total_shares - amount
            &&& after.available_liquidity == pool.available_liquidity - payout
            &&& after.total_borrowed == pool.total_borrowed
        }),
{
    let assets: int = pool.available_liquidity + pool.total_borrowed;
    if assets > 0 {
        let x: int = amount * assets;
        assert(x > 0) by (nonlinear_arith)
            requires
                amount > 0,
                assets > 0,
                x == amount * assets,
        ;
        lemma_div_is_ordered(0, x, pool.total_shares as int);
    }
}

/// A loan is granted whenever the amount and duration are positive, the
/// borrower has no open loan, the pool holds the amount, it is initialised, no
/// arithmetic overflows and the strategy's rate is within the borrower's limit.
/// The rate is the strategy's curve at the pool's utilization
/// `u = borrowed * 10_000 / (available + borrowed)` (0 when nothing is lent):
/// `base + slope * u / optimum` up to the optimum, `base + slope` above it. The
/// loan starts now with that rate and nothing credited; the amount moves from
/// the liquidity to what is lent out.
pub proof fn lemma_originate_loan_accepted<A>(
    pool: LendingPool<A>,
    loan: Option<Loan>,
    amount: i128,
    duration_secs: u64,
    max_interest_bps: u32,
    strategy: RateParams,
    now: u64,
)
    requires
        amount > 0,
        duration_secs > 0,
        loan matches Some(l) ==> l.repaid,
        pool.available_liquidity >= amount,
        pool.liquidity_token is Some,
        pool.total_borrowed >= 0,
        pool.total_borrowed * 10_000 <= i128::MAX,
        pool.available_liquidity + pool.total_borrowed <= i128::MAX,
        pool.total_borrowed + amount <= i128::MAX,
        ({
            let assets: int = pool.available_liquidity + pool.total_borrowed;
            let u: int = if pool.total_borrowed == 0 { 0 } else { (pool.total_borrowed * 10_000) / assets };
            let divisor: int = if strategy.optimal_util_bps > 0 { strategy.optimal_util_bps as int } else { 1 };
            let rate: int = if u <= strategy.optimal_util_bps {
                strategy.base_bps + (strategy.slope_bps * u) / divisor
            } else {
                strategy.base_bps + strategy.slope_bps
            };
            &&& u <= u32::MAX
            &&& strategy.base_bps + strategy.slope_bps <= u32::MAX
            &&& (u <= strategy.optimal_util_bps ==> strategy.slope_bps * u <= u32::MAX)
            &&& rate <= max_interest_bps
        }),
    ensures
        pool.originate_loan_result(loan, amount, duration_secs, max_interest_bps, strategy, now) is Ok,
        ({
            let assets: int = pool.available_liquidity + pool.total_borrowed;
            let u: int = if pool.total_borrowed == 0 { 0 } else { (pool.total_borrowed * 10_000) / assets };
            let divisor: int = if strategy.optimal_util_bps > 0 { strategy.optimal_util_bps as int } else { 1 };
            let rate: int = if u <= strategy.optimal_util_bps {
                strategy.base_bps + (strategy.slope_bps * u) / divisor
            } else {
                strategy.base_bps + strategy.slope_bps
            };
            let (after, new_loan) = pool.originate_loan_result(loan, amount, duration_secs, max_interest_bps, strategy, now)->Ok_0;
            &&& new_loan == Some(Loan {
                principal: amount,
                interest_bps: rate as u32,
                start_ts: now,
                duration_secs,
                repaid: false,
                credited: 0,
            })
            &&& after.available_liquidity == pool.available_liquidity - amount
            &&& after.total_borrowed == pool.total_borrowed + amount
            &&& after.total_shares == pool.total_shares
        }),
{
    let assets: int = pool.available_liquidity + pool.total_borrowed;
    if pool.total_borrowed > 0 {
        let x: int = pool.total_borrowed * 10_000;
        assert(x > 0);
        lemma_div_is_ordered(0, x, assets);
    }
    lemma_rate_curve(strategy, pool.utilization_value());
}

/// What is still owed on a loan, in plain arithmetic: principal, plus
/// `principal * interest_bps / 10_000` rounded toward zero, less what others paid.
pub proof fn lemma_outstanding_formula(loan: Loan)
    ensures
        outstanding_debt(loan) == loan.principal + (if loan.principal * loan.interest_bps >= 0 {
            (loan.principal * loan.interest_bps) / 10_000
        } else {
            -((-(loan.principal * loan.interest_bps)) / 10_000)
        }) - loan.credited,
        (i128::MIN <= loan.principal * loan.interest_bps <= i128::MAX
            && i128::MIN <= loan_due(loan.principal as int, loan.interest_bps as int) <= i128::MAX
            && i128::MIN <= outstanding_debt(loan) <= i128::MAX)
            ==> checked_outstanding(loan) == Ok::<i128, ContractError>(outstanding_debt(loan) as i128),
{
}

/// A borrower's payment is accepted whenever it is positive, the loan exists
/// and is open, the pool is initialised and no arithmetic overflows. The pool
/// keeps the whole payment; the loan closes (and its principal stops counting
/// as lent out) exactly when the payment covers what is outstanding.
pub proof fn lemma_repay_accepted<A>(pool: LendingPool<A>, loan: Option<Loan>, amount: i128)
    requires
        amount > 0,
        loan matches Some(l) && !l.repaid,
        pool.liquidity_token is Some,
        checked_outstanding(loan.unwrap()) is Ok,
        pool.available_liquidity + amount <= i128::MAX,
        i128::MIN <= pool.total_borrowed - loan.unwrap().principal <= i128::MAX,
    ensures
        pool.repay_result(loan, amount) is Ok,
        ({
            let l = loan.unwrap();
            let (after, after_loan) = pool.repay_result(loan, amount)->Ok_0;
            &&& after.available_liquidity == pool.available_liquidity + amount
            &&& after.total_shares == pool.total_shares
            &&& (amount >= outstanding_debt(l) ==> after_loan == Some(Loan { repaid: true, ..l })
                && after.total_borrowed == pool.total_borrowed - l.principal)
            &&& (amount < outstanding_debt(l) ==> after_loan == loan && after.total_borrowed == pool.total_borrowed)
        }),
{
}

/// Someone else's payment toward a loan is accepted whenever it is positive and
/// at most what is outstanding, the loan exists and is open, the pool is
/// initialised and no arithmetic overflows. The payment joins the liquidity and
/// is added to what the loan has been credited; the loan closes (and its
/// principal stops counting as lent out) exactly when nothing is left outstanding.
pub proof fn lemma_repay_for_accepted<A>(pool: LendingPool<A>, loan: Option<Loan>, amount: i128)
    requires
        amount > 0,
        loan matches Some(l) && !l.repaid,
        pool.liquidity_token is Some,
        checked_outstanding(loan.unwrap()) is Ok,
        amount <= outstanding_debt(loan.unwrap()),
        pool.available_liquidity + amount <= i128::MAX,
        i128::MIN <= pool.total_borrowed - loan.unwrap().principal <= i128::MAX,
    ensures
        pool.repay_for_result(loan, amount) is Ok,
        ({
            let l = loan.unwrap();
            let (after, after_loan) = pool.repay_for_result(loan, amount)->Ok_0;
            &&& after.available_liquidity == pool.available_liquidity + amount
            &&& after_loan matches Some(n) && n.credited == l.credited + amount && n.principal == l.principal
                && n.interest_bps == l.interest_bps && n.start_ts == l.start_ts && n.duration_secs == l.duration_secs
                && (n.repaid <==> amount == outstanding_debt(l))
            &&& after.total_borrowed == if amount == outstanding_debt(l) { pool.total_borrowed - l.principal } else {
                pool.total_borrowed as int
            }
        }),
{
}

/// What an accepted call implies about its inputs: a deposit was positive and
/// bought at least one share; a redemption was positive, within the lender's and
/// the pool's shares, and paid no more than the pool held; a loan was positive,
/// for a positive duration, to a borrower without an open loan, out of liquidity
/// the pool held, at a rate within the borrower's limit; a payment was positive
/// and for an open loan, and a payment by someone else no more than was owed.
pub proof fn lemma_accepted_calls_respect_limits<A>(
    pool: LendingPool<A>,
    shares: i128,
    loan: Option<Loan>,
    amount: i128,
    duration_secs: u64,
    max_interest_bps: u32,
    strategy: RateParams,
    now: u64,
)
    ensures
        pool.deposit_result(shares, amount) matches Ok((after, s, minted)) ==> {
            &&& amount > 0
            &&& minted >= 1
            &&& s == shares + minted
            &&& after.available_liquidity == pool.available_liquidity + amount
        },
        pool.withdraw_result(shares, amount) matches Ok((after, s, payout)) ==> {
            &&& amount > 0
            &&& shares >= amount
            &&& pool.total_shares >= amount
            &&& 0 <= payout <= pool.available_liquidity
            &&& s == shares - amount
            &&& after.available_liquidity == pool.available_liquidity - payout
        },
        pool.originate_loan_result(loan, amount, duration_secs, max_interest_bps, strategy, now) matches Ok((after, l)) ==> {
            &&& amount > 0
            &&& duration_secs > 0
            &&& (loan matches Some(old_loan) ==> old_loan.repaid)
            &&& pool.available_liquidity >= amount
            &&& l matches Some(n) && n.principal == amount && n.interest_bps <= max_interest_bps
                && n.start_ts == now && n.duration_secs == duration_secs && !n.repaid && n.credited == 0
            &&& after.available_liquidity == pool.available_liquidity - amount
        },
        pool.repay_result(loan, amount) matches Ok((after, _)) ==> {
            &&& amount > 0
            &&& loan matches Some(l) && !l.repaid
            &&& after.available_liquidity == pool.available_liquidity + amount
        },
        pool.repay_for_result(loan, amount) matches Ok((after, _)) ==> {
            &&& amount > 0
            &&& loan matches Some(l) && !l.repaid && amount <= l.principal + (if l.principal * l.interest_bps >= 0 {
                (l.principal * l.interest_bps) / 10_000
            } else {
                -((-(l.principal * l.interest_bps)) / 10_000)
            }) - l.credited
            &&& after.available_liquidity == pool.available_liquidity + amount
        },
{
    if pool.withdraw_result(shares, amount) is Ok {
        let assets: int = pool.available_liquidity + pool.total_borrowed;
        if assets > 0 {
            let x: int = amount * assets;
            assert(x > 0) by (nonlinear_arith)
                requires
                    amount > 0,
                    assets > 0,
                    x == amount * assets,
            ;
            lemma_div_is_ordered(0, x, pool.total_shares as int);
        }
    }
}

/// A successful call to the pool by an account, as a sequence law reads it.
pub enum PoolCall<A> {
    Deposit { lender: A, amount: i128 },
    Withdraw { lender: A, shares: i128 },
    OriginateLoan { borrower: A, amount: i128, duration_secs: u64, max_interest_bps: u32, strategy: RateParams, now: u64 },
    Repay { borrower: A, amount: i128 },
    RepayFor { borrower: A, amount: i128 },
}

/// Some rate curve, for lemmas about calls that do not price a loan.
spec fn strategy_any() -> RateParams {
    RateParams { base_bps: 0, slope_bps: 0, optimal_util_bps: 0 }
}

/// The whole storage of a pool: its instance storage and every account's
/// shares and loan (an account missing from a map has none).
#[verifier::reject_recursive_types(A)]
pub struct PoolLedger<A> {
    pub pool: LendingPool<A>,
    pub shares: Map<A, i128>,
    pub loans: Map<A, Loan>,
}

/// What a sequence of calls moved: liquidity deposited, paid out to redeeming
/// lenders, lent and repaid; pool shares minted and burnt; and the shares
/// minted to each account.
#[verifier::reject_recursive_types(A)]
pub struct PoolTally<A> {
    pub deposited: int,
    pub paid_out: int,
    pub lent: int,
    pub repaid: int,
    pub minted: int,
    pub burned: int,
    pub minted_to: Map<A, int>,
}

/// An account's shares as stored; 0 when none are stored.
pub open spec fn shares_of<A>(shares: Map<A, i128>, who: A) -> int {
    if shares.dom().contains(who) { shares[who] as int } else { 0 }
}

/// An account's loan as stored.
pub open spec fn loan_of<A>(loans: Map<A, Loan>, who: A) -> Option<Loan> {
    if loans.dom().contains(who) { Some(loans[who]) } else { None }
}

/// The shares minted to an account in a tally; 0 when none.
pub open spec fn minted_to_of<A>(minted_to: Map<A, int>, who: A) -> int {
    if minted_to.dom().contains(who) { minted_to[who] } else { 0 }
}

/// The shares an account redeems in a sequence of calls.
pub open spec fn burned_by<A>(calls: Seq<PoolCall<A>>, who: A) -> int
    decreases calls.len(),
{
    if calls.len() == 0 {
        0
    } else {
        burned_by(calls.drop_last(), who) + match calls.last() {
            PoolCall::Withdraw { lender, shares } => if lender == who { shares as int } else { 0 },
            _ => 0,
        }
    }
}

/// The empty tally.
pub open spec fn no_tally<A>() -> PoolTally<A> {
    PoolTally { deposited: 0, paid_out: 0, lent: 0, repaid: 0, minted: 0, burned: 0, minted_to: Map::empty() }
}

/// The storage after one call and the tally extended by what it moved, or
/// `None` when the call is refused.
pub open spec fn apply_call<A>(ledger: PoolLedger<A>, tally: PoolTally<A>, call: PoolCall<A>)
    -> Option<(PoolLedger<A>, PoolTally<A>)>
{
    match call {
        PoolCall::Deposit { lender, amount } => match ledger.pool.deposit_result(shares_of(ledger.shares, lender) as i128, amount) {
            Ok((p, s, m)) => Some((
                PoolLedger { pool: p, shares: ledger.shares.insert(lender, s), loans: ledger.loans },
                PoolTally {
                    deposited: tally.deposited + amount,
                    minted: tally.minted + m,
                    minted_to: tally.minted_to.insert(lender, minted_to_of(tally.minted_to, lender) + m),
                    ..tally
                },
            )),
            Err(_) => None,
        },
        PoolCall::Withdraw { lender, shares } => match ledger.pool.withdraw_result(shares_of(ledger.shares, lender) as i128, shares) {
            Ok((p, s, payout)) => Some((
                PoolLedger { pool: p, shares: ledger.shares.insert(lender, s), loans: ledger.loans },
                PoolTally { paid_out: tally.paid_out + payout, burned: tally.burned + shares, ..tally },
            )),
            Err(_) => None,
        },
        PoolCall::OriginateLoan { borrower, amount, duration_secs, max_interest_bps, strategy, now } =>
            match ledger.pool.originate_loan_result(loan_of(ledger.loans, borrower), amount, duration_secs, max_interest_bps, strategy, now) {
                Ok((p, l)) => Some((
                    PoolLedger { pool: p, shares: ledger.shares, loans: ledger.loans.insert(borrower, l.unwrap()) },
                    PoolTally { lent: tally.lent + amount, ..tally },
                )),
                Err(_) => None,
            },
        PoolCall::Repay { borrower, amount } => match ledger.pool.repay_result(loan_of(ledger.loans, borrower), amount) {
            Ok((p, l)) => Some((
                PoolLedger { pool: p, shares: ledger.shares, loans: ledger.loans.insert(borrower, l.unwrap()) },
                PoolTally { repaid: tally.repaid + amount, ..tally },
            )),
            Err(_) => None,
        },
        PoolCall::RepayFor { borrower, amount } => match ledger.pool.repay_for_result(loan_of(ledger.loans, borrower), amount) {
            Ok((p, l)) => Some((
                PoolLedger { pool: p, shares: ledger.shares, loans: ledger.loans.insert(borrower, l.unwrap()) },
                PoolTally { repaid: tally.repaid + amount, ..tally },
            )),
            Err(_) => None,
        },
    }
}

/// The storage and tally after a sequence of calls, or `None` when one of
/// them is refused.
pub open spec fn run_calls<A>(ledger: PoolLedger<A>, calls: Seq<PoolCall<A>>) -> Option<(PoolLedger<A>, PoolTally<A>)>
    decreases calls.len(),
{
    if calls.len() == 0 {
        Some((ledger, no_tally()))
    } else {
        match run_calls(ledger, calls.drop_last()) {
            None => None,
            Some((l, t)) => apply_call(l, t, calls.last()),
        }
    }
}

/// Storage no call sequence can make inconsistent: no negative liquidity,
/// total of shares or account shares.
pub open spec fn ledger_wf<A>(ledger: PoolLedger<A>) -> bool {
    &&& ledger.pool.wf()
    &&& forall|who: A| ledger.shares.dom().contains(who) ==> #[trigger] ledger.shares[who] >= 0
}

/// Over any sequence of successful calls, the pool's liquidity changes by
/// exactly what was deposited, minus what was paid out to redeeming lenders and
/// lent, plus what borrowers repaid; the total of shares by what was minted
/// minus what was redeemed; and every account's shares by what was minted to it
/// minus what it redeemed. Starting from consistent storage (such as a fresh
/// pool's), none of these ever becomes negative.
pub proof fn lemma_pool_accounting<A>(ledger: PoolLedger<A>, calls: Seq<PoolCall<A>>)
    requires
        run_calls(ledger, calls) is Some,
    ensures
        ({
            let (after, t) = run_calls(ledger, calls)->Some_0;
            &&& after.pool.available_liquidity
                == ledger.pool.available_liquidity + t.deposited - t.paid_out - t.lent + t.repaid
            &&& after.pool.total_shares == ledger.pool.total_shares + t.minted - t.burned
            &&& forall|who: A| #[trigger] shares_of(after.shares, who)
                == shares_of(ledger.shares, who) + minted_to_of(t.minted_to, who) - burned_by(calls, who)
            &&& ledger_wf(ledger) ==> ledger_wf(after)
        }),
    decreases calls.len(),
{
    if calls.len() > 0 {
        let prefix = calls.drop_last();
        lemma_pool_accounting(ledger, prefix);
        let (mid, t) = run_calls(ledger, prefix)->Some_0;
        let call = calls.last();
        let (after, t2) = apply_call(mid, t, call)->Some_0;
        assert forall|who: A| #[trigger] shares_of(after.shares, who)
            == shares_of(ledger.shares, who) + minted_to_of(t2.minted_to, who) - burned_by(calls, who) by {
            assert(shares_of(mid.shares, who)
                == shares_of(ledger.shares, who) + minted_to_of(t.minted_to, who) - burned_by(prefix, who));
        }
        if ledger_wf(ledger) {
            assert(ledger_wf(mid));
            match call {
                PoolCall::Deposit { lender, amount } => {
                    lemma_balances_stay_nonnegative(mid.pool, shares_of(mid.shares, lender) as i128, None, amount, 1, 0, strategy_any(), 0);
                },
                PoolCall::Withdraw { lender, shares } => {
                    lemma_balances_stay_nonnegative(mid.pool, shares_of(mid.shares, lender) as i128, None, shares, 1, 0, strategy_any(), 0);
                },
                PoolCall::OriginateLoan { borrower, amount, duration_secs, max_interest_bps, strategy, now } => {
                    lemma_balances_stay_nonnegative(mid.pool, 0, loan_of(mid.loans, borrower), amount, duration_secs, max_interest_bps, strategy, now);
                },
                PoolCall::Repay { borrower, amount } => {
                    lemma_balances_stay_nonnegative(mid.pool, 0, loan_of(mid.loans, borrower), amount, 1, 0, strategy_any(), 0);
                },
                PoolCall::RepayFor { borrower, amount } => {
                    lemma_balances_stay_nonnegative(mid.pool, 0, loan_of(mid.loans, borrower), amount, 1, 0, strategy_any(), 0);
                },
            }
        }
    }
}

} // verus!
