use vstd::prelude::*;

verus! {

use crate::decimal::Decimal;
use crate::schedule::{schedule_wf, DistributionWindow};

/// The aggregate record of one guild: one independent reward pool with its
/// own stake total, emission schedule and reward index.
#[derive(Clone, Debug, PartialEq, Eq)]
pub struct GuildState {
    /// Total reward quantity placed on the schedule so far (audit only).
    pub total_rewards_distributed: u128,
    /// How many stakers currently hold a locked collectible in the guild.
    pub total_staker: u64,
    /// The sum of all positions' stake in the guild.
    pub total_stake_amount: u128,
    /// The timestamp up to which emissions have been folded into the index.
    pub last_distributed: u64,
    /// Reward units owed per staked unit since the guild began, as a
    /// monotonically non-decreasing fixed-point rational.
    pub global_reward_index: Decimal,
    /// The emission windows feeding the index; append-only.
    pub distribution_schedule: Vec<DistributionWindow>,
}

impl GuildState {
    /// Every emission window on record ends strictly after it starts.
    pub open spec fn wf(self) -> bool {
        schedule_wf(self.distribution_schedule@)
    }

    /// A guild as it is created: empty, with accounting starting at `now`.
    pub fn new(now: u64) -> (r: GuildState)
        ensures
            r.total_rewards_distributed == 0,
            r.total_staker == 0,
            r.total_stake_amount == 0,
            r.last_distributed == now,
            r.global_reward_index.atomics == 0,
            r.distribution_schedule@ =~= Seq::<DistributionWindow>::empty(),
            r.wf(),
    {
        GuildState {
            total_rewards_distributed: 0,
            total_staker: 0,
            total_stake_amount: 0,
            last_distributed: now,
            global_reward_index: Decimal::zero(),
            distribution_schedule: Vec::new(),
        }
    }
}

/// The record of one user's position in one guild.
#[derive(Clone, Debug, PartialEq, Eq)]
pub struct StakerInfo {
    /// The fungible stake the user holds in the guild.
    pub stake_amount: u128,
    /// Rewards settled to the user and not yet paid out.
    pub pending_rewards: u128,
    /// The guild index at the user's last settlement: rewards owed since
    /// then are `stake_amount * (global index - this snapshot)`.
    pub reward_index: Decimal,
    /// Rewards already paid out to the user.
    pub reward_claimed: u128,
    /// The collectible locked to gate staking, if any. A position without
    /// one holds no stake.
    pub token_id: Option<String>,
}

impl StakerInfo {
    /// A position is empty when every balance is zero and nothing is locked:
    /// the shape a missing record is read as, and the shape a record must
    /// regain before it may be dropped from storage.
    pub open spec fn is_empty_record(self) -> bool {
        &&& self.stake_amount == 0
        &&& self.pending_rewards == 0
        &&& self.reward_index.atomics == 0
        &&& self.reward_claimed == 0
        &&& self.token_id is None
    }

    /// The zero-valued position a user is treated as holding before any
    /// interaction.
    pub fn new() -> (r: StakerInfo)
        ensures
            r.is_empty_record(),
    {
        StakerInfo {
            stake_amount: 0,
            pending_rewards: 0,
            reward_index: Decimal::zero(),
            reward_claimed: 0,
            token_id: None,
        }
    }
}

} // verus!
