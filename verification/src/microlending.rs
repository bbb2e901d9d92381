//! The single-token microlending contract: lenders deposit into a shared
//! balance, borrowers take one loan at a time at the contract's fixed rate and
//! repay it in full.
//!
//! The instance storage of the contract is [`Microlending`]; a lender's balance
//! and a borrower's loan are passed to the entry points of that account.
use vstd::prelude::*;

use crate::common::{
    amount_due_checked, checked_loan_due, fits_i128, lemma_due_at_least_principal, loan_due, Asset,
    ContractError, Party, TokenOp,
};

verus! {

/// A borrower's loan record.
#[derive(Clone, Copy, Debug, PartialEq, Eq, Structural)]
pub struct Loan {
    pub principal: i128,
    pub interest_bps: u32,
    pub start_ts: u64,
    pub duration_secs: u64,
    pub repaid: bool,
}

/// The instance storage of the contract. `A` is the host's account address type.
#[derive(Debug)]
pub struct Microlending<A> {
    pub admin: Option<A>,
    pub token: Option<A>,
    pub interest_bps: Option<u32>,
    /// Liquidity held by the contract and not lent out; 0 when never written.
    pub available_liquidity: i128,
}

impl<A> Microlending<A> {
    /// The same contract with another amount of available liquidity.
    pub open spec fn with_available(self, available: int) -> Self {
        Microlending {
            admin: self.admin,
            token: self.token,
            interest_bps: self.interest_bps,
            available_liquidity: available as i128,
        }
    }

    /// What every operation keeps: no negative liquidity.
    pub open spec fn wf(self) -> bool {
        self.available_liquidity >= 0
    }

    /// The state that `init` produces, or its refusal.
    pub open spec fn init_result(self, admin: A, token: A, interest_bps: u32) -> Result<Self, ContractError> {
        if self.admin is Some {
            Err(ContractError::AlreadyInitialized)
        } else {
            Ok(Microlending {
                admin: Some(admin),
                token: Some(token),
                interest_bps: Some(interest_bps),
                available_liquidity: 0,
            })
        }
    }

    /// The contract and the lender's balance after a deposit, or its refusal.
    pub open spec fn deposit_result(self, balance: i128, amount: i128) -> Result<(Self, i128), ContractError> {
        if amount <= 0 {
            Err(ContractError::AmountNotPositive)
        } else if self.token is None {
            Err(ContractError::NotInitialized)
        } else if !fits_i128(balance + amount) {
            Err(ContractError::ArithmeticOverflow)
        } else if !fits_i128(self.available_liquidity + amount) {
            Err(ContractError::ArithmeticOverflow)
        } else {
            Ok((self.with_available(self.available_liquidity + amount), (balance + amount) as i128))
        }
    }

    /// The contract and the lender's balance after a withdrawal, or its refusal.
    pub open spec fn withdraw_result(self, balance: i128, amount: i128) -> Result<(Self, i128), ContractError> {
        if amount <= 0 {
            Err(ContractError::AmountNotPositive)
        } else if balance < amount {
            Err(ContractError::InsufficientLenderBalance)
        } else if self.available_liquidity < amount {
            Err(ContractError::InsufficientLiquidity)
        } else if self.token is None {
            Err(ContractError::NotInitialized)
        } else {
            Ok((self.with_available(self.available_liquidity - amount), (balance - amount) as i128))
        }
    }

    /// The contract and the borrower's loan after a loan is taken, or its refusal.
    pub open spec fn take_loan_result(self, loan: Option<Loan>, amount: i128, duration_secs: u64, now: u64)
        -> Result<(Self, Option<Loan>), ContractError>
    {
        if amount <= 0 {
            Err(ContractError::AmountNotPositive)
        } else if duration_secs == 0 {
            Err(ContractError::DurationNotPositive)
        } else if loan matches Some(existing) && !existing.repaid {
            Err(ContractError::ExistingLoanNotRepaid)
        } else if self.available_liquidity < amount {
            Err(ContractError::InsufficientLiquidity)
        } else if self.interest_bps is None {
            Err(ContractError::NotInitialized)
        } else if self.token is None {
            Err(ContractError::NotInitialized)
        } else {
            Ok((
                self.with_available(self.available_liquidity - amount),
                Some(Loan {
                    principal: amount,
                    interest_bps: self.interest_bps.unwrap(),
                    start_ts: now,
                    duration_secs,
                    repaid: false,
                }),
            ))
        }
    }

    /// The amount paid, the contract and the borrower's loan after a full
    /// repayment, or its refusal.
    pub open spec fn repay_result(self, loan: Option<Loan>) -> Result<(i128, Self, Option<Loan>), ContractError> {
        if loan is None {
            Err(ContractError::LoanNotFound)
        } else if loan.unwrap().repaid {
            Err(ContractError::LoanAlreadyRepaid)
        } else if checked_loan_due(loan.unwrap().principal, loan.unwrap().interest_bps) is Err {
            Err(checked_loan_due(loan.unwrap().principal, loan.unwrap().interest_bps)->Err_0)
        } else if self.token is None {
            Err(ContractError::NotInitialized)
        } else if !fits_i128(
            self.available_liquidity + checked_loan_due(loan.unwrap().principal, loan.unwrap().interest_bps)->Ok_0,
        ) {
            Err(ContractError::ArithmeticOverflow)
        } else {
            let l = loan.unwrap();
            let due: i128 = checked_loan_due(l.principal, l.interest_bps)->Ok_0;
            Ok((due, self.with_available(self.available_liquidity + due), Some(Loan { repaid: true, ..l })))
        }
    }

    /// The state of a freshly deployed contract: nothing stored.
    pub fn new() -> (s: Self)
        ensures
            s.admin is None,
            s.token is None,
            s.interest_bps is None,
            s.available_liquidity == 0,
    {
        Microlending { admin: None, token: None, interest_bps: None, available_liquidity: 0 }
    }

    /// Stores the admin, the token and the interest rate and zero liquidity;
    /// refused when an admin is already stored.
    pub fn init(&mut self, admin: A, token: A, interest_bps: u32) -> (r: Result<(), ContractError>)
        ensures
            match r {
                Ok(()) => old(self).init_result(admin, token, interest_bps) == Ok::<Self, ContractError>(*final(self)),
                Err(e) => old(self).init_result(admin, token, interest_bps) == Err::<Self, ContractError>(e)
                    && *final(self) == *old(self),
            },
    {
        if self.admin.is_some() {
            return Err(ContractError::AlreadyInitialized);
        }
        self.admin = Some(admin);
        self.token = Some(token);
        self.interest_bps = Some(interest_bps);
        self.available_liquidity = 0;
        Ok(())
    }

    /// A lender deposits `amount`, which is added to the lender's balance.
    pub fn deposit(&mut self, balance: &mut i128, amount: i128) -> (r: Result<Vec<TokenOp>, ContractError>)
        ensures
            match r {
                Ok(ops) => {
                    &&& old(self).deposit_result(*old(balance), amount) == Ok::<(Self, i128), ContractError>((*final(self), *final(balance)))
                    &&& ops@ == seq![
                        TokenOp::Transfer { asset: Asset::Liquidity, from: Party::Caller, to: Party::Contract, amount },
                    ]
                },
                Err(e) => {
                    &&& old(self).deposit_result(*old(balance), amount) == Err::<(Self, i128), ContractError>(e)
                    &&& *final(self) == *old(self)
                    &&& *final(balance) == *old(balance)
                },
            },
            old(self).wf() && *old(balance) >= 0 ==> final(self).wf() && *final(balance) >= 0,
    {
        if amount <= 0 {
            return Err(ContractError::AmountNotPositive);
        }
        if self.token.is_none() {
            return Err(ContractError::NotInitialized);
        }
        let new_balance: i128 = match balance.checked_add(amount) {
            None => return Err(ContractError::ArithmeticOverflow),
            Some(v) => v,
        };
        let new_available: i128 = match self.available_liquidity.checked_add(amount) {
            None => return Err(ContractError::ArithmeticOverflow),
            Some(v) => v,
        };
        *balance = new_balance;
        self.available_liquidity = new_available;
        let mut ops: Vec<TokenOp> = Vec::new();
        ops.push(TokenOp::Transfer { asset: Asset::Liquidity, from: Party::Caller, to: Party::Contract, amount });
        Ok(ops)
    }

    /// A lender takes `amount` back out of the lender's balance.
    pub fn withdraw(&mut self, balance: &mut i128, amount: i128) -> (r: Result<Vec<TokenOp>, ContractError>)
        ensures
            match r {
                Ok(ops) => {
                    &&& old(self).withdraw_result(*old(balance), amount) == Ok::<(Self, i128), ContractError>((*final(self), *final(balance)))
                    &&& ops@ == seq![
                        TokenOp::Transfer { asset: Asset::Liquidity, from: Party::Contract, to: Party::Caller, amount },
                    ]
                },
                Err(e) => {
                    &&& old(self).withdraw_result(*old(balance), amount) == Err::<(Self, i128), ContractError>(e)
                    &&& *final(self) == *old(self)
                    &&& *final(balance) == *old(balance)
                },
            },
            old(self).wf() && *old(balance) >= 0 ==> final(self).wf() && *final(balance) >= 0,
    {
        if amount <= 0 {
            return Err(ContractError::AmountNotPositive);
        }
        if *balance < amount {
            return Err(ContractError::InsufficientLenderBalance);
        }
        if self.available_liquidity < amount {
            return Err(ContractError::InsufficientLiquidity);
        }
        if self.token.is_none() {
            return Err(ContractError::NotInitialized);
        }
        *balance = *balance - amount;
        self.available_liquidity = self.available_liquidity - amount;
        let mut ops: Vec<TokenOp> = Vec::new();
        ops.push(TokenOp::Transfer { asset: Asset::Liquidity, from: Party::Contract, to: Party::Caller, amount });
        Ok(ops)
    }

    /// A borrower takes a loan of `amount` at the contract's rate, for the
    /// duration given, starting at ledger time `now`.
    pub fn take_loan(&mut self, loan: &mut Option<Loan>, amount: i128, duration_secs: u64, now: u64)
        -> (r: Result<Vec<TokenOp>, ContractError>)
        ensures
            match r {
                Ok(ops) => {
                    &&& old(self).take_loan_result(*old(loan), amount, duration_secs, now)
                        == Ok::<(Self, Option<Loan>), ContractError>((*final(self), *final(loan)))
                    &&& ops@ == seq![
                        TokenOp::Transfer { asset: Asset::Liquidity, from: Party::Contract, to: Party::Caller, amount },
                    ]
                },
                Err(e) => {
                    &&& old(self).take_loan_result(*old(loan), amount, duration_secs, now)
                        == Err::<(Self, Option<Loan>), ContractError>(e)
                    &&& *final(self) == *old(self)
                    &&& *final(loan) == *old(loan)
                },
            },
            old(self).wf() ==> final(self).wf(),
    {
        if amount <= 0 {
            return Err(ContractError::AmountNotPositive);
        }
        if duration_secs == 0 {
            return Err(ContractError::DurationNotPositive);
        }
        if let Some(existing) = loan {
            if !existing.repaid {
                return Err(ContractError::ExistingLoanNotRepaid);
            }
        }
        if self.available_liquidity < amount {
            return Err(ContractError::InsufficientLiquidity);
        }
        let interest_bps: u32 = match self.interest_bps {
            None => return Err(ContractError::NotInitialized),
            Some(bps) => bps,
        };
        if self.token.is_none() {
            return Err(ContractError::NotInitialized);
        }
        *loan = Some(Loan { principal: amount, interest_bps, start_ts: now, duration_secs, repaid: false });
        self.available_liquidity = self.available_liquidity - amount;
        let mut ops: Vec<TokenOp> = Vec::new();
        ops.push(TokenOp::Transfer { asset: Asset::Liquidity, from: Party::Contract, to: Party::Caller, amount });
        Ok(ops)
    }

    /// A borrower repays the whole loan, principal plus interest; the amount
    /// paid is returned.
    pub fn repay(&mut self, loan: &mut Option<Loan>) -> (r: Result<(i128, Vec<TokenOp>), ContractError>)
        ensures
            match r {
                Ok((due, ops)) => {
                    &&& old(self).repay_result(*old(loan))
                        == Ok::<(i128, Self, Option<Loan>), ContractError>((due, *final(self), *final(loan)))
                    &&& ops@ == seq![
                        TokenOp::Transfer { asset: Asset::Liquidity, from: Party::Caller, to: Party::Contract, amount: due },
                    ]
                },
                Err(e) => {
                    &&& old(self).repay_result(*old(loan)) == Err::<(i128, Self, Option<Loan>), ContractError>(e)
                    &&& *final(self) == *old(self)
                    &&& *final(loan) == *old(loan)
                },
            },
            old(self).wf() && (*old(loan) matches Some(l) ==> l.principal >= 0) ==> final(self).wf(),
    {
        let current: Loan = match loan {
            None => return Err(ContractError::LoanNotFound),
            Some(l) => *l,
        };
        if current.repaid {
            return Err(ContractError::LoanAlreadyRepaid);
        }
        let due: i128 = match amount_due_checked(current.principal, current.interest_bps) {
            Err(e) => return Err(e),
            Ok(v) => v,
        };
        if self.token.is_none() {
            return Err(ContractError::NotInitialized);
        }
        let new_available: i128 = match self.available_liquidity.checked_add(due) {
            None => return Err(ContractError::ArithmeticOverflow),
            Some(v) => v,
        };
        *loan = Some(Loan { repaid: true, ..current });
        self.available_liquidity = new_available;
        let mut ops: Vec<TokenOp> = Vec::new();
        ops.push(TokenOp::Transfer { asset: Asset::Liquidity, from: Party::Caller, to: Party::Contract, amount: due });
        Ok((due, ops))
    }

    /// What a loan's borrower owes: principal plus `principal * interest_bps / 10_000`.
    pub fn amount_due(loan: &Loan) -> (due: i128)
        requires
            checked_loan_due(loan.principal, loan.interest_bps) is Ok,
        ensures
            due == loan_due(loan.principal as int, loan.interest_bps as int),
    {
        match amount_due_checked(loan.principal, loan.interest_bps) {
            Ok(v) => v,
            Err(_) => 0,
        }
    }

    /// The liquidity available for withdrawals and loans.
    pub fn get_available_liquidity(&self) -> (r: i128)
        ensures
            r == self.available_liquidity,
    {
        self.available_liquidity
    }

    /// The lender's balance as stored for an account: 0 when nothing is stored.
    pub fn get_lender_balance(stored: Option<i128>) -> (r: i128)
        ensures
            r == match stored {
                Some(v) => v,
                None => 0,
            },
    {
        match stored {
            Some(v) => v,
            None => 0,
        }
    }

    /// The contract's interest rate in basis points; refused before `init`.
    pub fn get_interest_bps(&self) -> (r: Result<u32, ContractError>)
        ensures
            match self.interest_bps {
                Some(b) => r == Ok::<u32, ContractError>(b),
                None => r == Err::<u32, ContractError>(ContractError::NotInitialized),
            },
    {
        match self.interest_bps {
            Some(b) => Ok(b),
            None => Err(ContractError::NotInitialized),
        }
    }

    /// The liquidity token; refused before `init`.
    pub fn get_token(&self) -> (r: Result<&A, ContractError>)
        ensures
            match self.token {
                Some(a) => r == Ok::<&A, ContractError>(&a),
                None => r == Err::<&A, ContractError>(ContractError::NotInitialized),
            },
    {
        match &self.token {
            Some(a) => Ok(a),
            None => Err(ContractError::NotInitialized),
        }
    }

    /// The admin; refused before `init`.
    pub fn get_admin(&self) -> (r: Result<&A, ContractError>)
        ensures
            match self.admin {
                Some(a) => r == Ok::<&A, ContractError>(&a),
                None => r == Err::<&A, ContractError>(ContractError::NotInitialized),
            },
    {
        match &self.admin {
            Some(a) => Ok(a),
            None => Err(ContractError::NotInitialized),
        }
    }
}

/// The contract is initialised once: after a successful `init`, every further `init` is refused.
pub proof fn lemma_init_once<A>(contract: Microlending<A>, admin: A, token: A, interest_bps: u32, again: A, again_bps: u32)
    requires
        contract.init_result(admin, token, interest_bps) is Ok,
    ensures
        contract.init_result(admin, token, interest_bps)->Ok_0.init_result(again, again, again_bps)
            == Err::<Microlending<A>, ContractError>(ContractError::AlreadyInitialized),
{
}

/// Withdrawing what was just deposited gives back the contract and the
/// lender's balance exactly as they were (for a contract and balance that are
/// not negative, as every operation keeps them).
pub proof fn lemma_deposit_then_withdraw<A>(contract: Microlending<A>, balance: i128, amount: i128)
    requires
        contract.available_liquidity >= 0,
        balance >= 0,
        contract.deposit_result(balance, amount) is Ok,
    ensures
        ({
            let (after, after_balance) = contract.deposit_result(balance, amount)->Ok_0;
            after.withdraw_result(after_balance, amount) == Ok::<(Microlending<A>, i128), ContractError>((contract, balance))
        }),
{
}

/// No operation makes the available liquidity or a lender's balance negative.
pub proof fn lemma_balances_stay_nonnegative<A>(
    contract: Microlending<A>,
    balance: i128,
    loan: Option<Loan>,
    amount: i128,
    duration_secs: u64,
    now: u64,
)
    requires
        contract.available_liquidity >= 0,
        balance >= 0,
        loan matches Some(l) ==> l.principal >= 0,
    ensures
        contract.deposit_result(balance, amount) matches Ok((c, b)) ==> c.available_liquidity >= 0 && b >= 0,
        contract.withdraw_result(balance, amount) matches Ok((c, b)) ==> c.available_liquidity >= 0 && b >= 0,
        contract.take_loan_result(loan, amount, duration_secs, now) matches Ok((c, _)) ==> c.available_liquidity >= 0,
        contract.repay_result(loan) matches Ok((_, c, _)) ==> c.available_liquidity >= 0,
{
    if let Some(l) = loan {
        lemma_due_at_least_principal(l.principal as int, l.interest_bps as int);
    }
}

/// A borrower has at most one open loan: once a loan is taken, every further
/// loan for that borrower is refused until it is repaid.
pub proof fn lemma_one_open_loan<A>(
    contract: Microlending<A>,
    loan: Option<Loan>,
    amount: i128,
    duration_secs: u64,
    now: u64,
    next_amount: i128,
    next_duration_secs: u64,
    later: u64,
)
    requires
        contract.take_loan_result(loan, amount, duration_secs, now) is Ok,
        next_amount > 0,
        next_duration_secs > 0,
    ensures
        ({
            let (after, open_loan) = contract.take_loan_result(loan, amount, duration_secs, now)->Ok_0;
            &&& open_loan == Some(Loan {
                principal: amount,
                interest_bps: contract.interest_bps.unwrap(),
                start_ts: now,
                duration_secs,
                repaid: false,
            })
            &&& after.take_loan_result(open_loan, next_amount, next_duration_secs, later)
                == Err::<(Microlending<A>, Option<Loan>), ContractError>(ContractError::ExistingLoanNotRepaid)
        }),
{
}

/// Taking a loan and repaying it charges the borrower principal plus interest
/// at the contract's rate, closes the loan, refuses a second repayment, and
/// leaves the contract with its liquidity plus the interest.
pub proof fn lemma_loan_cycle<A>(
    contract: Microlending<A>,
    loan: Option<Loan>,
    amount: i128,
    duration_secs: u64,
    now: u64,
)
    requires
        contract.take_loan_result(loan, amount, duration_secs, now) is Ok,
        ({
            let (lent, open_loan) = contract.take_loan_result(loan, amount, duration_secs, now)->Ok_0;
            lent.repay_result(open_loan) is Ok
        }),
    ensures
        ({
            let (lent, open_loan) = contract.take_loan_result(loan, amount, duration_secs, now)->Ok_0;
            let (paid, repaid, closed_loan) = lent.repay_result(open_loan)->Ok_0;
            let rate: u32 = contract.interest_bps.unwrap();
            &&& paid == loan_due(amount as int, rate as int)
            &&& repaid.available_liquidity == contract.available_liquidity + (paid - amount)
            &&& repaid.available_liquidity >= contract.available_liquidity
            &&& closed_loan matches Some(l) && l.repaid
            &&& repaid.repay_result(closed_loan) == Err::<(i128, Microlending<A>, Option<Loan>), ContractError>(
                ContractError::LoanAlreadyRepaid,
            )
        }),
{
    lemma_due_at_least_principal(amount as int, contract.interest_bps.unwrap() as int);
}


/// The microlending calls in plain arithmetic. A deposit is accepted exactly
/// when it is positive, the contract is initialised and the sums fit, and adds
/// the amount to the lender's balance and the liquidity. A withdrawal is accepted
/// exactly when it is positive, within the lender's balance and the liquidity,
/// and the contract is initialised, and takes the amount from both. A loan is
/// accepted exactly when it is positive, for a positive duration, to a borrower
/// without an open loan, within the liquidity, and the contract is initialised;
/// it is recorded at the contract's rate, starting now. A repayment of an open
/// loan charges principal plus `principal * rate / 10_000` rounded toward zero,
/// adds it to the liquidity and closes the loan.
pub proof fn lemma_microlending_calls<A>(
    contract: Microlending<A>,
    balance: i128,
    loan: Option<Loan>,
    amount: i128,
    duration_secs: u64,
    now: u64,
)
    ensures
        (contract.deposit_result(balance, amount) is Ok) <==> (amount > 0 && contract.token is Some
            && balance + amount <= i128::MAX && contract.available_liquidity + amount <= i128::MAX),
        contract.deposit_result(balance, amount) matches Ok((c, b)) ==> b == balance + amount
            && c.available_liquidity == contract.available_liquidity + amount,
        (contract.withdraw_result(balance, amount) is Ok) <==> (amount > 0 && balance >= amount
            && contract.available_liquidity >= amount && contract.token is Some),
        contract.withdraw_result(balance, amount) matches Ok((c, b)) ==> b == balance - amount
            && c.available_liquidity == contract.available_liquidity - amount,
        (contract.take_loan_result(loan, amount, duration_secs, now) is Ok) <==> (amount > 0 && duration_secs > 0
            && (loan matches Some(l) ==> l.repaid) && contract.available_liquidity >= amount
            && contract.interest_bps is Some && contract.token is Some),
        contract.take_loan_result(loan, amount, duration_secs, now) matches Ok((c, l)) ==> {
            &&& l == Some(Loan {
                principal: amount,
                interest_bps: contract.interest_bps.unwrap(),
                start_ts: now,
                duration_secs,
                repaid: false,
            })
            &&& c.available_liquidity == contract.available_liquidity - amount
        },
        contract.repay_result(loan) matches Ok((paid, c, l)) ==> {
            let old_loan = loan.unwrap();
            let product: int = old_loan.principal * old_loan.interest_bps;
            &&& loan matches Some(o) && !o.repaid
            &&& paid == old_loan.principal + (if product >= 0 { product / 10_000 } else { -((-product) / 10_000) })
            &&& c.available_liquidity == contract.available_liquidity + paid
            &&& l == Some(Loan { repaid: true, ..old_loan })
        },
        ({
            let old_loan = loan.unwrap();
            let product: int = old_loan.principal * old_loan.interest_bps;
            let due: int = old_loan.principal + (if product >= 0 { product / 10_000 } else { -((-product) / 10_000) });
            (loan matches Some(o) && !o.repaid && contract.token is Some && i128::MIN <= product <= i128::MAX
                && i128::MIN <= due <= i128::MAX && i128::MIN <= contract.available_liquidity + due <= i128::MAX)
                ==> contract.repay_result(loan) is Ok
        }),
{
}

/// A successful call to the contract by an account, as a sequence law reads it.
pub enum MicroCall<A> {
    Deposit { lender: A, amount: i128 },
    Withdraw { lender: A, amount: i128 },
    TakeLoan { borrower: A, amount: i128, duration_secs: u64, now: u64 },
    Repay { borrower: A },
}

/// The whole storage of the contract: its instance storage and every account's
/// balance and loan (an account missing from a map has none).
#[verifier::reject_recursive_types(A)]
pub struct MicroLedger<A> {
    pub contract: Microlending<A>,
    pub balances: Map<A, i128>,
    pub loans: Map<A, Loan>,
}

/// What a sequence of calls moved: liquidity deposited, withdrawn, lent, and
/// repaid (the amounts `repay` returned).
pub struct MicroTally {
    pub deposited: int,
    pub withdrawn: int,
    pub lent: int,
    pub repaid: int,
}

/// An account's balance as stored; 0 when none is stored.
pub open spec fn balance_of<A>(balances: Map<A, i128>, who: A) -> int {
    if balances.dom().contains(who) { balances[who] as int } else { 0 }
}

/// An account's loan as stored.
pub open spec fn loan_of<A>(loans: Map<A, Loan>, who: A) -> Option<Loan> {
    if loans.dom().contains(who) { Some(loans[who]) } else { None }
}

/// What an account deposits in a sequence of calls.
pub open spec fn deposited_by<A>(calls: Seq<MicroCall<A>>, who: A) -> int
    decreases calls.len(),
{
    if calls.len() == 0 {
        0
    } else {
        deposited_by(calls.drop_last(), who) + match calls.last() {
            MicroCall::Deposit { lender, amount } => if lender == who { amount as int } else { 0 },
            _ => 0,
        }
    }
}

/// What an account withdraws in a sequence of calls.
pub open spec fn withdrawn_by<A>(calls: Seq<MicroCall<A>>, who: A) -> int
    decreases calls.len(),
{
    if calls.len() == 0 {
        0
    } else {
        withdrawn_by(calls.drop_last(), who) + match calls.last() {
            MicroCall::Withdraw { lender, amount } => if lender == who { amount as int } else { 0 },
            _ => 0,
        }
    }
}

/// The storage after one call and the tally extended by what it moved, or
/// `None` when the call is refused.
pub open spec fn apply_call<A>(ledger: MicroLedger<A>, tally: MicroTally, call: MicroCall<A>)
    -> Option<(MicroLedger<A>, MicroTally)>
{
    match call {
        MicroCall::Deposit { lender, amount } =>
            match ledger.contract.deposit_result(balance_of(ledger.balances, lender) as i128, amount) {
                Ok((c, b)) => Some((
                    MicroLedger { contract: c, balances: ledger.balances.insert(lender, b), loans: ledger.loans },
                    MicroTally { deposited: tally.deposited + amount, ..tally },
                )),
                Err(_) => None,
            },
        MicroCall::Withdraw { lender, amount } =>
            match ledger.contract.withdraw_result(balance_of(ledger.balances, lender) as i128, amount) {
                Ok((c, b)) => Some((
                    MicroLedger { contract: c, balances: ledger.balances.insert(lender, b), loans: ledger.loans },
                    MicroTally { withdrawn: tally.withdrawn + amount, ..tally },
                )),
                Err(_) => None,
            },
        MicroCall::TakeLoan { borrower, amount, duration_secs, now } =>
            match ledger.contract.take_loan_result(loan_of(ledger.loans, borrower), amount, duration_secs, now) {
                Ok((c, l)) => Some((
                    MicroLedger { contract: c, balances: ledger.balances, loans: ledger.loans.insert(borrower, l.unwrap()) },
                    MicroTally { lent: tally.lent + amount, ..tally },
                )),
                Err(_) => None,
            },
        MicroCall::Repay { borrower } => match ledger.contract.repay_result(loan_of(ledger.loans, borrower)) {
            Ok((due, c, l)) => Some((
                MicroLedger { contract: c, balances: ledger.balances, loans: ledger.loans.insert(borrower, l.unwrap()) },
                MicroTally { repaid: tally.repaid + due, ..tally },
            )),
            Err(_) => None,
        },
    }
}

/// The storage and tally after a sequence of calls, or `None` when one of
/// them is refused.
pub open spec fn run_calls<A>(ledger: MicroLedger<A>, calls: Seq<MicroCall<A>>) -> Option<(MicroLedger<A>, MicroTally)>
    decreases calls.len(),
{
    if calls.len() == 0 {
        Some((ledger, MicroTally { deposited: 0, withdrawn: 0, lent: 0, repaid: 0 }))
    } else {
        match run_calls(ledger, calls.drop_last()) {
            None => None,
            Some((l, t)) => apply_call(l, t, calls.last()),
        }
    }
}

/// Storage no call sequence can make inconsistent: no negative liquidity,
/// balance or loan principal.
pub open spec fn ledger_wf<A>(ledger: MicroLedger<A>) -> bool {
    &&& ledger.contract.available_liquidity >= 0
    &&& forall|who: A| ledger.balances.dom().contains(who) ==> #[trigger] ledger.balances[who] >= 0
    &&& forall|who: A| ledger.loans.dom().contains(who) ==> #[trigger] ledger.loans[who].principal >= 0
}

/// Over any sequence of successful calls, the liquidity changes by exactly
/// what was deposited, minus what was withdrawn and lent, plus what `repay`
/// returned, and each lender's balance by what the lender deposited minus what
/// the lender withdrew. Starting from consistent storage (such as a fresh
/// contract's), neither ever becomes negative.
pub proof fn lemma_microlending_accounting<A>(ledger: MicroLedger<A>, calls: Seq<MicroCall<A>>)
    requires
        run_calls(ledger, calls) is Some,
    ensures
        ({
            let (after, t) = run_calls(ledger, calls)->Some_0;
            &&& after.contract.available_liquidity
                == ledger.contract.available_liquidity + t.deposited - t.withdrawn - t.lent + t.repaid
            &&& forall|who: A| #[trigger] balance_of(after.balances, who)
                == balance_of(ledger.balances, who) + deposited_by(calls, who) - withdrawn_by(calls, who)
            &&& ledger_wf(ledger) ==> ledger_wf(after)
        }),
    decreases calls.len(),
{
    if calls.len() > 0 {
        let prefix = calls.drop_last();
        lemma_microlending_accounting(ledger, prefix);
        let (mid, t) = run_calls(ledger, prefix)->Some_0;
        let call = calls.last();
        let (after, t2) = apply_call(mid, t, call)->Some_0;
        assert forall|who: A| #[trigger] balance_of(after.balances, who)
            == balance_of(ledger.balances, who) + deposited_by(calls, who) - withdrawn_by(calls, who) by {
            assert(balance_of(mid.balances, who)
                == balance_of(ledger.balances, who) + deposited_by(prefix, who) - withdrawn_by(prefix, who));
        }
        if ledger_wf(ledger) {
            assert(ledger_wf(mid));
            match call {
                MicroCall::Deposit { lender, amount } => {
                    lemma_balances_stay_nonnegative(mid.contract, balance_of(mid.balances, lender) as i128, None, amount, 1, 0);
                },
                MicroCall::Withdraw { lender, amount } => {
                    lemma_balances_stay_nonnegative(mid.contract, balance_of(mid.balances, lender) as i128, None, amount, 1, 0);
                },
                MicroCall::TakeLoan { borrower, amount, duration_secs, now } => {
                    lemma_balances_stay_nonnegative(mid.contract, 0, loan_of(mid.loans, borrower), amount, duration_secs, now);
                },
                MicroCall::Repay { borrower } => {
                    lemma_balances_stay_nonnegative(mid.contract, 0, loan_of(mid.loans, borrower), 1, 1, 0);
                },
            }
        }
    }
}

} // verus!
