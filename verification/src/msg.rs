use vstd::prelude::*;

verus! {

/// Commands the engine accepts inside an inbound fungible-token transfer:
/// the transferred amount funds the command.
#[derive(Clone, Debug, PartialEq, Eq)]
pub enum Cw20HookMsg {
    /// Buy a collectible: mint `id` on the collection `nft_addr` for the
    /// sender, paid with the transferred tokens.
    Mint {
        /// The collectible to mint.
        id: String,
        /// The collection to mint on.
        nft_addr: String,
    },
    /// Stake the transferred amount in the sender's guild.
    Stake {},
}

/// Commands the engine accepts inside an inbound collectible transfer.
#[derive(Clone, Debug, PartialEq, Eq)]
pub enum Cw721HookMsg {
    /// Lock the transferred collectible `id`, gating the sender's stake.
    Lock {
        /// The collectible being locked.
        id: String,
    },
}

/// The read-only queries the engine answers.
#[derive(Clone, Debug, PartialEq, Eq)]
pub enum QueryMsg {
    /// The engine's configuration.
    Config {},
    /// Each guild's aggregate numbers, optionally projected forward to
    /// `block_time` without persisting the accrual.
    State {
        /// The hypothetical time to project the accrual to.
        block_time: Option<u64>,
    },
    /// The stored position of `staker`.
    StakerInfo {
        /// Whose position to read.
        staker: String,
    },
}

} // verus!
