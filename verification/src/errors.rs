use vstd::prelude::*;

verus! {

/// Every way a vesting operation can fail.  All failures abort the whole
/// operation with no partial state change; none of them panic.
#[derive(Clone, Copy, Debug, PartialEq, Eq, Structural)]
pub enum VestingError {
    /// The pool was already funded once.
    AlreadyInitialized,
    /// The configured decimal scale does not match the token's scale.
    DecimalMismatch,
    /// The funding wallet does not hold the deposit amount.
    InsufficientDeposit,
    /// More beneficiaries than the registry bound allows.
    TooManyBeneficiaries,
    /// Release was attempted before the administrative timelock elapsed.
    TimelockNotExpired,
    /// A claim was attempted before the pool was released.
    ReleaseNotCalled,
    /// The caller is not in the beneficiary registry.
    BeneficiaryNotFound,
    /// The claimer's personal lockup period has not elapsed.
    LockupNotExpired,
    /// A sum, product or cursor advance would exceed the integral range.
    ArithmeticOverflow,
    /// A checkpoint amount is not a finite, representable quantity.
    InvalidAmount,
    /// The schedule parameters cannot form a schedule.
    InvalidSchedule,
    /// No checkpoint is currently payable; callers may treat this as a no-op.
    NothingDue,
}

} // verus!
