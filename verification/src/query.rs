use vstd::prelude::*;

verus! {

use crate::decimal::Decimal;
use crate::error::ContractError;
use crate::rewards::{accrue_ok, accrue_target, accrue_values, accrued_index_atomics};
use crate::state::GuildState;

/// The queryable aggregate numbers of one guild.
#[derive(Clone, Copy, Debug, PartialEq, Eq, Structural)]
pub struct StateResponse {
    /// How many stakers hold a locked collectible in the guild.
    pub total_staker: u64,
    /// The sum of all positions' stake in the guild.
    pub total_stake_amount: u128,
    /// The timestamp up to which emissions are folded into the index.
    pub last_distributed: u64,
    /// The guild's reward index.
    pub global_reward_index: Decimal,
}

/// Answers a state query: the guild's numbers as stored, or, where
/// `block_time` is given, as they would stand after an accrual at that
/// time — computed against a copy, persisting nothing.
pub fn query_state(state: &GuildState, block_time: Option<u64>) -> (r: Result<
    StateResponse,
    ContractError,
>)
    requires
        state.wf(),
    ensures
        block_time is None ==> (r matches Ok(v) && v == (StateResponse {
            total_staker: state.total_staker,
            total_stake_amount: state.total_stake_amount,
            last_distributed: state.last_distributed,
            global_reward_index: state.global_reward_index,
        })),
        block_time matches Some(t) ==> {
            &&& (r is Ok <==> accrue_ok(*state, t))
            &&& (r matches Ok(v) ==> {
                &&& v.total_staker == state.total_staker
                &&& v.total_stake_amount == state.total_stake_amount
                &&& v.last_distributed == accrue_target(*state, t)
                &&& v.global_reward_index.atomics == accrued_index_atomics(*state, t)
            })
            &&& (r matches Err(e) ==> e == ContractError::ArithmeticOverflow)
        },
{
    match block_time {
        None => Ok(
            StateResponse {
                total_staker: state.total_staker,
                total_stake_amount: state.total_stake_amount,
                last_distributed: state.last_distributed,
                global_reward_index: state.global_reward_index,
            },
        ),
        Some(t) => match accrue_values(state, t) {
            Ok((atomics, target)) => Ok(
                StateResponse {
                    total_staker: state.total_staker,
                    total_stake_amount: state.total_stake_amount,
                    last_distributed: target,
                    global_reward_index: Decimal { atomics },
                },
            ),
            Err(e) => Err(e),
        },
    }
}

} // verus!
