//! Vocabulary shared by all contracts: the reasons a call is refused, the token
//! movements a call asks the host to carry out, and the integer arithmetic of
//! the contracts stated over mathematical integers.
use vstd::prelude::*;

verus! {

/// Why a contract call is refused. Every refusal aborts the whole call, so no
/// storage write and no token movement of a refused call takes effect.
#[derive(Debug, Clone, Copy, PartialEq, Eq, Structural)]
pub enum ContractError {
    /// `init` on a contract whose admin is already stored.
    AlreadyInitialized,
    /// A configuration entry that `init` writes is missing.
    NotInitialized,
    /// An amount argument that is zero or negative.
    AmountNotPositive,
    /// A loan duration of zero seconds.
    DurationNotPositive,
    /// A lending-pool withdrawal larger than the lender's shares.
    InsufficientShares,
    /// A microlending withdrawal larger than the lender's balance.
    InsufficientLenderBalance,
    /// A lending-pool deposit too small to mint a single pool share.
    DepositTooSmall,
    /// A withdrawal or loan larger than the liquidity the contract holds.
    InsufficientLiquidity,
    /// An unlock larger than the locked collateral.
    InsufficientCollateral,
    /// A loan whose rate, set by the rate strategy, exceeds what the borrower accepts.
    RateAboveLimit,
    /// A new loan for a borrower whose previous loan is not repaid.
    ExistingLoanNotRepaid,
    /// A repayment by a borrower without a loan.
    LoanNotFound,
    /// A repayment of a loan that is already repaid.
    LoanAlreadyRepaid,
    /// An unlock or a liquidation of an account without a position.
    PositionNotFound,
    /// A liquidation of an owner without an open loan to repay.
    NoOpenLoan,
    /// A liquidation repaying more than the owner owes.
    RepaymentExceedsDebt,
    /// A liquidation priced by an oracle price that is not positive.
    InvalidPrice,
    /// A liquidation of a position that is collateralised well enough and
    /// whose loan has not expired.
    PositionHealthy,
    /// A price update by an account other than the oracle's admin.
    NotAuthorized,
    /// A price read before any price was set.
    PriceNotAvailable,
    /// `principal * interest_bps` does not fit in an `i128`.
    InterestOverflow,
    /// A checked product of the interest or liquidation formula does not fit.
    Overflow,
    /// An ordinary sum or difference leaves the range of its integer type.
    ArithmeticOverflow,
}

/// The two parties between which a call moves tokens: the account whose
/// authorisation the call requires, and the contract itself.
#[derive(Debug, Clone, Copy, PartialEq, Eq, Structural)]
pub enum Party {
    Caller,
    Contract,
}

/// The token that an operation moves, as configured by the contract's `init`.
#[derive(Debug, Clone, Copy, PartialEq, Eq, Structural)]
pub enum Asset {
    /// The liquidity token (USDC) of a lending pool or microlending contract.
    Liquidity,
    /// The pool-share token that a lending pool mints for its lenders.
    PoolShare,
    /// The collateral token escrowed by the collateral contract.
    Collateral,
}

/// A token movement that a successful call asks the host to perform, in order.
#[derive(Debug, Clone, Copy, PartialEq, Eq, Structural)]
pub enum TokenOp {
    Transfer { asset: Asset, from: Party, to: Party, amount: i128 },
    Mint { asset: Asset, to: Party, amount: i128 },
    Burn { asset: Asset, from: Party, amount: i128 },
    /// A payment of `amount` of the lending pool's liquidity token to the
    /// lending pool toward the loan of the account a liquidation concerns,
    /// made through the pool's `repay_for`.
    RepayToPool { from: Party, amount: i128 },
}

/// Basis points in one whole.
pub const BPS_DENOMINATOR: i128 = 10_000;

/// Seconds in a (365-day) year.
pub const SECONDS_PER_YEAR: i128 = 31_536_000;

pub open spec fn fits_i128(x: int) -> bool {
    i128::MIN <= x <= i128::MAX
}

pub open spec fn fits_u32(x: int) -> bool {
    0 <= x <= u32::MAX
}

/// Integer division rounding toward zero, as Rust's `/` does on signed integers.
pub open spec fn trunc_div(a: int, b: int) -> int {
    if a >= 0 {
        a / b
    } else {
        -((-a) / b)
    }
}

/// Simple interest of a loan: `principal * interest_bps / 10_000`, rounded toward zero.
pub open spec fn loan_interest(principal: int, interest_bps: int) -> int {
    trunc_div(principal * interest_bps, 10_000)
}

/// What a borrower owes: principal plus simple interest.
pub open spec fn loan_due(principal: int, interest_bps: int) -> int {
    principal + loan_interest(principal, interest_bps)
}

/// The amount due computed with the contracts' checks: the product must fit in
/// an `i128` (else `InterestOverflow`), and so must the sum (else `ArithmeticOverflow`).
pub open spec fn checked_loan_due(principal: i128, interest_bps: u32) -> Result<i128, ContractError> {
    if !fits_i128(principal * interest_bps) {
        Err(ContractError::InterestOverflow)
    } else if !fits_i128(loan_due(principal as int, interest_bps as int)) {
        Err(ContractError::ArithmeticOverflow)
    } else {
        Ok(loan_due(principal as int, interest_bps as int) as i128)
    }
}

/// Ten to the power `n`.
pub open spec fn pow10(n: nat) -> int
    decreases n,
{
    if n == 0 {
        1
    } else {
        10 * pow10((n - 1) as nat)
    }
}

/// Powers of ten are positive and grow with the exponent.
pub proof fn lemma_pow10_grows(m: nat, n: nat)
    requires
        m <= n,
    ensures
        0 < pow10(m) <= pow10(n),
    decreases n,
{
    if n > m {
        lemma_pow10_grows(m, (n - 1) as nat);
    } else if n > 0 {
        lemma_pow10_grows(0, (n - 1) as nat);
    }
}

/// Powers of ten step by ten from one.
pub proof fn lemma_pow10_steps(n: nat)
    ensures
        pow10(0) == 1,
        pow10(n + 1) == 10 * pow10(n),
{
}

/// `10^n` as an `i128`, or `None` when it does not fit.
pub fn checked_pow10(n: u32) -> (r: Option<i128>)
    ensures
        match r {
            Some(v) => v == pow10(n as nat),
            None => !fits_i128(pow10(n as nat)),
        },
{
    let mut value: i128 = 1;
    let mut i: u32 = 0;
    while i < n
        invariant
            i <= n,
            value == pow10(i as nat),
        decreases n - i,
    {
        proof {
            lemma_pow10_grows(i as nat, i as nat);
        }
        match value.checked_mul(10) {
            None => {
                proof {
                    lemma_pow10_grows((i + 1) as nat, n as nat);
                }
                return None;
            },
            Some(v) => {
                value = v;
            },
        }
        i = i + 1;
    }
    Some(value)
}

/// Computes `principal + principal * interest_bps / 10_000`, refusing on overflow.
pub fn amount_due_checked(principal: i128, interest_bps: u32) -> (r: Result<i128, ContractError>)
    ensures
        r == checked_loan_due(principal, interest_bps),
{
    let bps: i128 = interest_bps as i128;
    match principal.checked_mul(bps) {
        None => Err(ContractError::InterestOverflow),
        Some(product) => {
            let interest: i128 = product / BPS_DENOMINATOR;
            match principal.checked_add(interest) {
                None => Err(ContractError::ArithmeticOverflow),
                Some(due) => Ok(due),
            }
        },
    }
}

/// The amount due in plain arithmetic: principal plus
/// `principal * interest_bps / 10_000` rounded toward zero; computed whenever the
/// product and the sum fit in an `i128`, refused with `InterestOverflow` when the
/// product does not.
pub proof fn lemma_loan_due_formula(principal: i128, interest_bps: u32)
    ensures
        loan_due(principal as int, interest_bps as int) == principal + (if principal * interest_bps >= 0 {
            (principal * interest_bps) / 10_000
        } else {
            -((-(principal * interest_bps)) / 10_000)
        }),
        !(i128::MIN <= principal * interest_bps <= i128::MAX)
            ==> checked_loan_due(principal, interest_bps) == Err::<i128, ContractError>(ContractError::InterestOverflow),
        (i128::MIN <= principal * interest_bps <= i128::MAX
            && i128::MIN <= loan_due(principal as int, interest_bps as int) <= i128::MAX)
            ==> checked_loan_due(principal, interest_bps) == Ok::<i128, ContractError>(
            loan_due(principal as int, interest_bps as int) as i128,
        ),
{
}

/// With a non-negative rate, the interest of a non-negative principal is
/// non-negative, so the amount due is at least the principal.
pub proof fn lemma_due_at_least_principal(principal: int, interest_bps: int)
    requires
        principal >= 0,
        interest_bps >= 0,
    ensures
        loan_interest(principal, interest_bps) >= 0,
        loan_due(principal, interest_bps) >= principal,
{
    assert(principal * interest_bps >= 0) by (nonlinear_arith)
        requires
            principal >= 0,
            interest_bps >= 0,
    ;
}

} // verus!
