//! Why an operation was refused.
use vstd::prelude::*;

verus! {

/// Every refused precondition, each with its own variant.
#[derive(Clone, Copy, Debug, PartialEq, Eq, Structural)]
pub enum EscrowError {
    /// A fungible allowance cannot be raised.
    AllowanceIncreaseFungible,
    /// The count of a non-fungible allowance can only go down.
    AllowanceIncreaseNonFungible,
    /// The allowance has no bounded count to reduce.
    NoBoundedCount,
    /// An allowance cannot be negative.
    NegativeAllowance,
    /// A count of non-fungibles must be a whole number.
    NotWholeNumber,
    /// A fungible allowance has no ids to remove.
    FungibleHasNoIds,
    /// A non-fungible allowance without an id set has no ids to remove.
    NoIdSet,
    /// An unlimited allowance has no ids to remove.
    UnlimitedHasNoIds,
    /// The allowance is not valid yet.
    NotYetValid,
    /// The fungible allowance is too small for the withdrawal.
    InsufficientFungibleAllowance,
    /// The allowance is no longer valid.
    NoLongerValid,
    /// The non-fungible allowance is too small for the withdrawal.
    InsufficientNonFungibleAllowance,
    /// Only a trusted depositor can request an allowance.
    UntrustedRequestor,
    /// The allowance was not issued by this escrow, or no longer exists.
    NotForThisEscrow,
    /// The allowance was not issued for this pool.
    NotForThisPool,
    /// The maximum of a new allowance cannot be negative.
    NegativeMaxAmount,
    /// A quantity must be fungible exactly where its resource is.
    QuantityMismatch,
    /// Only the native fee resource can subsidize fees.
    OnlyFeeResource,
    /// The owner has no pool.
    PoolNotFound,
    /// The pool holds nothing of this resource.
    ResourceNotFound,
    /// The pool cannot supply the tokens asked for.
    InsufficientFunds,
    /// The count taken from a non-fungible allowance must be whole.
    TakeNotWhole,
    /// An amount, a time or an id counter left its range.
    Overflow,
    /// Tokens of another resource, or a token already held, cannot be added.
    CannotDeposit,
}

impl EscrowError {
    /// The numeric tag that prefixes this error's message, where it has one.
    pub fn code(&self) -> (r: Option<u32>)
        ensures
            r == error_code(*self),
    {
        match self {
            EscrowError::AllowanceIncreaseFungible => Some(2000),
            EscrowError::AllowanceIncreaseNonFungible => Some(2001),
            EscrowError::NoBoundedCount => Some(2002),
            EscrowError::NegativeAllowance => Some(2003),
            EscrowError::NotWholeNumber => Some(2004),
            EscrowError::FungibleHasNoIds => Some(2005),
            EscrowError::NoIdSet => Some(2006),
            EscrowError::UnlimitedHasNoIds => Some(2007),
            EscrowError::NotYetValid => Some(2009),
            EscrowError::InsufficientFungibleAllowance => Some(2010),
            EscrowError::NoLongerValid => Some(2011),
            EscrowError::InsufficientNonFungibleAllowance => Some(2012),
            EscrowError::UntrustedRequestor => Some(2013),
            _ => None,
        }
    }
}

/// The numeric tag of each error that has one.
pub open spec fn error_code(e: EscrowError) -> Option<u32> {
    match e {
        EscrowError::AllowanceIncreaseFungible => Some(2000),
        EscrowError::AllowanceIncreaseNonFungible => Some(2001),
        EscrowError::NoBoundedCount => Some(2002),
        EscrowError::NegativeAllowance => Some(2003),
        EscrowError::NotWholeNumber => Some(2004),
        EscrowError::FungibleHasNoIds => Some(2005),
        EscrowError::NoIdSet => Some(2006),
        EscrowError::UnlimitedHasNoIds => Some(2007),
        EscrowError::NotYetValid => Some(2009),
        EscrowError::InsufficientFungibleAllowance => Some(2010),
        EscrowError::NoLongerValid => Some(2011),
        EscrowError::InsufficientNonFungibleAllowance => Some(2012),
        EscrowError::UntrustedRequestor => Some(2013),
        _ => None,
    }
}

} // verus!
