use vstd::prelude::*;

verus! {

/// The ways an operation of the staking engine can be refused.
///
/// Every failing operation leaves the records it was handed unchanged:
/// callers stage nothing until a call returns `Ok`.
#[derive(Clone, Copy, Debug, PartialEq, Eq, Structural)]
pub enum ContractError {
    /// The actor lacks the required role for an admin action.
    Unauthorized,
    /// An unstake asks for more than the position holds, or a settlement
    /// would fold a negative index delta into a balance.
    InsufficientBalance,
    /// A gating precondition failed: staking without a locked collectible,
    /// locking while one is already locked, unlocking with a mismatched
    /// collectible, or an emission window that does not end after it starts.
    PreconditionViolated,
    /// An integer or fixed-point operation exceeded the representable range.
    ArithmeticOverflow,
}

} // verus!
