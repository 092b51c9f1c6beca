use vstd::prelude::*;

verus! {

/// Every way an operation of this library can fail.
#[derive(Debug, Clone, Copy, PartialEq, Eq, Structural)]
pub enum ContractError {
    /// The caller is neither owner nor manager (or not the role the operation asks for).
    Unauthorized,
    /// A manager tried to hand ownership to someone else.
    OnlyOwnerCanChangeOwner,
    /// An unstaking cooldown of zero blocks or zero seconds.
    InvalidUnstakingDuration,
    /// A malformed pool denom, or a reward token that is not a native denom.
    InvalidDenom,
    /// A withdrawal beyond the holder's shares, of zero shares, or from a pool with no shares.
    InvalidUnstakeAmount,
    /// The holder already has the maximum number of pending claims.
    TooManyClaims,
    /// No pending claim of the holder has matured.
    NothingToClaim,
    /// The pool's reserves or total shares could not be resolved.
    PoolStateError,
    /// An intermediate amount left the range of its integer type.
    Overflow,
    /// The hook is already registered.
    HookAlreadyRegistered,
    /// The hook is not registered.
    HookNotRegistered,
    /// No reward contract is registered for the denom.
    RewardContractNotFound,
}

} // verus!
