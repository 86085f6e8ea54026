use vstd::prelude::*;

verus! {

use crate::decimal::Decimal;
use crate::error::ContractError;
use crate::gate::{
    lock_nft, lock_transition, set_distribution_schedule, stake_transition, stake_xqtum,
    unlock_nft, unlock_transition, unstake_transition, unstake_xqtum, withdraw_reward,
    withdraw_transition, UnlockSettlement,
};
use crate::rewards::lemma_accrue_monotonic;
use crate::schedule::DistributionWindow;
use crate::state::{GuildState, StakerInfo};

/// One user's position in a guild, together with the owner it is keyed by.
#[derive(Clone, Debug, PartialEq, Eq)]
pub struct PositionEntry {
    /// The user the position belongs to.
    pub owner: String,
    /// The position record itself.
    pub info: StakerInfo,
}

/// An outgoing instruction the engine produces and hands to the host to
/// perform: the engine itself never moves tokens or collectibles.
#[derive(Clone, Debug, PartialEq, Eq)]
pub enum Obligation {
    /// Transfer `amount` of the stake token back to `recipient`.
    StakeRefund {
        /// Who receives the stake.
        recipient: String,
        /// How much stake to return.
        amount: u128,
    },
    /// Pay `amount` of `denom` to `recipient`.
    RewardPayout {
        /// Who receives the reward.
        recipient: String,
        /// The denomination the guild pays rewards in.
        denom: String,
        /// How much reward to pay.
        amount: u128,
    },
    /// Return the collectible `token_id` to `recipient`.
    CollectibleReturn {
        /// Who receives the collectible.
        recipient: String,
        /// The collectible to return.
        token_id: String,
    },
}

/// The sum of all entries' staked amounts.
pub open spec fn sum_stakes(s: Seq<PositionEntry>) -> int
    decreases s.len(),
{
    if s.len() == 0 {
        0
    } else {
        sum_stakes(s.drop_last()) + s.last().info.stake_amount
    }
}

/// How many entries hold a locked collectible.
pub open spec fn count_locked(s: Seq<PositionEntry>) -> int
    decreases s.len(),
{
    if s.len() == 0 {
        0
    } else {
        count_locked(s.drop_last()) + (if s.last().info.token_id is Some {
            1int
        } else {
            0int
        })
    }
}

/// No two entries are keyed by the same owner.
pub open spec fn owners_unique(s: Seq<PositionEntry>) -> bool {
    forall|i: int, j: int|
        0 <= i < j < s.len() ==> (#[trigger] s[i].owner@) != (#[trigger] s[j].owner@)
}

/// Some entry is keyed by `user`.
pub open spec fn has_position(s: Seq<PositionEntry>, user: Seq<char>) -> bool
    decreases s.len(),
{
    if s.len() == 0 {
        false
    } else {
        s.last().owner@ == user || has_position(s.drop_last(), user)
    }
}

/// The zero-valued position a user without a stored record is read as.
pub open spec fn empty_position() -> StakerInfo {
    StakerInfo {
        stake_amount: 0,
        pending_rewards: 0,
        reward_index: Decimal { atomics: 0 },
        reward_claimed: 0,
        token_id: None,
    }
}

/// The position the store reads for `user`: the stored record, or the
/// zero-valued default where none is stored.
pub open spec fn spec_position(s: Seq<PositionEntry>, user: Seq<char>) -> StakerInfo
    decreases s.len(),
{
    if s.len() == 0 {
        empty_position()
    } else if s.last().owner@ == user {
        s.last().info
    } else {
        spec_position(s.drop_last(), user)
    }
}

/// An entry is on record for `user` exactly when some index holds it.
pub proof fn lemma_has_position_iff(s: Seq<PositionEntry>, user: Seq<char>)
    ensures
        has_position(s, user) <==> exists|k: int|
            0 <= k < s.len() && (#[trigger] s[k].owner@) == user,
    decreases s.len(),
{
    if s.len() > 0 {
        lemma_has_position_iff(s.drop_last(), user);
        if s.last().owner@ == user {
            assert(s[s.len() - 1].owner@ == user);
        }
        if has_position(s.drop_last(), user) {
            let k = choose|k: int|
                0 <= k < s.drop_last().len() && (#[trigger] s.drop_last()[k].owner@) == user;
            assert(s[k].owner@ == user);
        }
        if exists|k: int| 0 <= k < s.len() && (#[trigger] s[k].owner@) == user {
            let k = choose|k: int| 0 <= k < s.len() && (#[trigger] s[k].owner@) == user;
            if k < s.len() - 1 {
                assert(s.drop_last()[k].owner@ == user);
            }
        }
    }
}

/// Where no entry is keyed by `user`, the store reads the default.
pub proof fn lemma_spec_position_absent(s: Seq<PositionEntry>, user: Seq<char>)
    requires
        !has_position(s, user),
    ensures
        spec_position(s, user) == empty_position(),
    decreases s.len(),
{
    if s.len() > 0 {
        lemma_spec_position_absent(s.drop_last(), user);
    }
}

/// The entry at `j` is the one the store reads for its owner, provided no
/// later entry shares that owner.
pub proof fn lemma_spec_position_at(s: Seq<PositionEntry>, j: int)
    requires
        0 <= j < s.len(),
        forall|k: int| j < k < s.len() ==> (#[trigger] s[k].owner@) != s[j].owner@,
    ensures
        spec_position(s, s[j].owner@) == s[j].info,
        has_position(s, s[j].owner@),
    decreases s.len(),
{
    if j < s.len() - 1 {
        lemma_spec_position_at(s.drop_last(), j);
    }
}

/// Replacing the entry at `j` does not change what the store reads for any
/// other owner.
pub proof fn lemma_spec_position_update_other(
    s: Seq<PositionEntry>,
    j: int,
    e: PositionEntry,
    user: Seq<char>,
)
    requires
        0 <= j < s.len(),
        user != e.owner@,
        user != s[j].owner@,
    ensures
        spec_position(s.update(j, e), user) == spec_position(s, user),
    decreases s.len(),
{
    let s2 = s.update(j, e);
    if j == s.len() - 1 {
        assert(s2.drop_last() =~= s.drop_last());
    } else {
        assert(s2.drop_last() =~= s.drop_last().update(j, e));
        assert(s2.last() == s.last());
        lemma_spec_position_update_other(s.drop_last(), j, e, user);
    }
}

/// Dropping the entry at `j` does not change what the store reads for any
/// other owner.
pub proof fn lemma_spec_position_remove_other(s: Seq<PositionEntry>, j: int, user: Seq<char>)
    requires
        0 <= j < s.len(),
        user != s[j].owner@,
    ensures
        spec_position(s.remove(j), user) == spec_position(s, user),
        has_position(s.remove(j), user) == has_position(s, user),
    decreases s.len(),
{
    let s2 = s.remove(j);
    if j == s.len() - 1 {
        assert(s2 =~= s.drop_last());
    } else {
        assert(s2.drop_last() =~= s.drop_last().remove(j));
        assert(s2.last() == s.last());
        lemma_spec_position_remove_other(s.drop_last(), j, user);
    }
}

/// Replacing the entry at `j` moves the stake sum and the locked count by
/// the difference the replacement makes.
pub proof fn lemma_sums_update(s: Seq<PositionEntry>, j: int, e: PositionEntry)
    requires
        0 <= j < s.len(),
    ensures
        sum_stakes(s.update(j, e)) == sum_stakes(s) - s[j].info.stake_amount
            + e.info.stake_amount,
        count_locked(s.update(j, e)) == count_locked(s) - (if s[j].info.token_id is Some {
            1int
        } else {
            0int
        }) + (if e.info.token_id is Some {
            1int
        } else {
            0int
        }),
    decreases s.len(),
{
    let s2 = s.update(j, e);
    if j == s.len() - 1 {
        assert(s2.drop_last() =~= s.drop_last());
        assert(s2.last() == e);
    } else {
        assert(s2.drop_last() =~= s.drop_last().update(j, e));
        assert(s2.last() == s.last());
        lemma_sums_update(s.drop_last(), j, e);
    }
}

/// Appending an entry adds its stake and its locked flag to the sums.
pub proof fn lemma_sums_push(s: Seq<PositionEntry>, e: PositionEntry)
    ensures
        sum_stakes(s.push(e)) == sum_stakes(s) + e.info.stake_amount,
        count_locked(s.push(e)) == count_locked(s) + (if e.info.token_id is Some {
            1int
        } else {
            0int
        }),
{
    assert(s.push(e).drop_last() =~= s);
    assert(s.push(e).last() == e);
}

/// Dropping the entry at `j` removes its stake and its locked flag from
/// the sums.
pub proof fn lemma_sums_remove(s: Seq<PositionEntry>, j: int)
    requires
        0 <= j < s.len(),
    ensures
        sum_stakes(s.remove(j)) == sum_stakes(s) - s[j].info.stake_amount,
        count_locked(s.remove(j)) == count_locked(s) - (if s[j].info.token_id is Some {
            1int
        } else {
            0int
        }),
    decreases s.len(),
{
    let s2 = s.remove(j);
    if j == s.len() - 1 {
        assert(s2 =~= s.drop_last());
    } else {
        assert(s2.drop_last() =~= s.drop_last().remove(j));
        assert(s2.last() == s.last());
        lemma_sums_remove(s.drop_last(), j);
    }
}

/// Every entry's stake is at most the whole sum, and the sum is never
/// negative.
pub proof fn lemma_sum_stakes_bounds(s: Seq<PositionEntry>, j: int)
    requires
        0 <= j < s.len(),
    ensures
        sum_stakes(s) >= s[j].info.stake_amount,
        s[j].info.token_id is Some ==> count_locked(s) >= 1,
    decreases s.len(),
{
    lemma_sums_nonneg(s.drop_last());
    lemma_count_nonneg_all(s.drop_last());
    if j < s.len() - 1 {
        lemma_sum_stakes_bounds(s.drop_last(), j);
    }
}

/// The stake sum of any store is non-negative.
pub proof fn lemma_sums_nonneg(s: Seq<PositionEntry>)
    ensures
        sum_stakes(s) >= 0,
    decreases s.len(),
{
    if s.len() > 0 {
        lemma_sums_nonneg(s.drop_last());
    }
}

/// The locked count of any store is non-negative.
pub proof fn lemma_count_nonneg_all(s: Seq<PositionEntry>)
    ensures
        count_locked(s) >= 0,
    decreases s.len(),
{
    if s.len() > 0 {
        lemma_count_nonneg_all(s.drop_last());
    }
}

/// Replacing the entry at `j` with one keyed by the same owner keeps the
/// owners distinct, makes the store read the new record for that owner,
/// and leaves every other owner's read unchanged.
proof fn lemma_store_update(s0: Seq<PositionEntry>, j: int, e1: PositionEntry)
    requires
        owners_unique(s0),
        0 <= j < s0.len(),
        e1.owner@ == s0[j].owner@,
    ensures
        owners_unique(s0.update(j, e1)),
        spec_position(s0.update(j, e1), e1.owner@) == e1.info,
        forall|u: Seq<char>|
            u != e1.owner@ ==> spec_position(s0.update(j, e1), u) == spec_position(s0, u),
        forall|i: int|
            0 <= i < s0.len() ==> (#[trigger] s0.update(j, e1)[i].owner@) == s0[i].owner@,
{
    let s2 = s0.update(j, e1);
    assert forall|i: int| 0 <= i < s0.len() implies (#[trigger] s2[i].owner@) == s0[i].owner@ by {
        if i != j {
            assert(s2[i] == s0[i]);
        }
    }
    assert forall|a: int, b: int| 0 <= a < b < s2.len() implies (#[trigger] s2[a].owner@) != (
    #[trigger] s2[b].owner@) by {
        assert(s2[a].owner@ == s0[a].owner@);
        assert(s2[b].owner@ == s0[b].owner@);
    }
    assert forall|k: int| j < k < s2.len() implies (#[trigger] s2[k].owner@) != s2[j].owner@ by {
        assert(s0[k].owner@ != s0[j].owner@);
    }
    lemma_spec_position_at(s2, j);
    assert forall|u: Seq<char>| u != e1.owner@ implies spec_position(s2, u) == spec_position(
        s0,
        u,
    ) by {
        lemma_spec_position_update_other(s0, j, e1, u);
    }
}

/// Appending an entry for an owner not yet on record keeps the owners
/// distinct, makes the store read the new record for that owner, and
/// leaves every other owner's read unchanged.
proof fn lemma_store_push(s0: Seq<PositionEntry>, e1: PositionEntry)
    requires
        owners_unique(s0),
        !has_position(s0, e1.owner@),
    ensures
        owners_unique(s0.push(e1)),
        spec_position(s0.push(e1), e1.owner@) == e1.info,
        forall|u: Seq<char>|
            u != e1.owner@ ==> spec_position(s0.push(e1), u) == spec_position(s0, u),
{
    let s2 = s0.push(e1);
    lemma_has_position_iff(s0, e1.owner@);
    assert(s2.drop_last() =~= s0);
    assert(s2.last() == e1);
    assert forall|a: int, b: int| 0 <= a < b < s2.len() implies (#[trigger] s2[a].owner@) != (
    #[trigger] s2[b].owner@) by {
        assert(s2[a] == s0[a]);
        if b < s2.len() - 1 {
            assert(s2[b] == s0[b]);
        }
    }
    assert forall|u: Seq<char>| u != e1.owner@ implies spec_position(s2, u) == spec_position(
        s0,
        u,
    ) by {
        assert(s2.last().owner@ == e1.owner@);
    }
}

/// Dropping the entry at `j` keeps the owners distinct, leaves no record
/// for its owner, leaves every other owner's read unchanged, and maps each
/// remaining entry back to its place in the old store.
proof fn lemma_store_remove(s0: Seq<PositionEntry>, j: int)
    requires
        owners_unique(s0),
        0 <= j < s0.len(),
    ensures
        owners_unique(s0.remove(j)),
        !has_position(s0.remove(j), s0[j].owner@),
        spec_position(s0.remove(j), s0[j].owner@) == empty_position(),
        forall|u: Seq<char>|
            u != s0[j].owner@ ==> spec_position(s0.remove(j), u) == spec_position(s0, u),
        forall|i: int|
            0 <= i < s0.remove(j).len() ==> (#[trigger] s0.remove(j)[i]) == (if i < j {
                s0[i]
            } else {
                s0[i + 1]
            }),
{
    let s2 = s0.remove(j);
    assert forall|i: int| 0 <= i < s2.len() implies (#[trigger] s2[i]) == (if i < j {
        s0[i]
    } else {
        s0[i + 1]
    }) by {}
    assert forall|a: int, b: int| 0 <= a < b < s2.len() implies (#[trigger] s2[a].owner@) != (
    #[trigger] s2[b].owner@) by {
        let a0: int = if a < j {
            a
        } else {
            a + 1
        };
        let b0: int = if b < j {
            b
        } else {
            b + 1
        };
        assert(s2[a] == s0[a0]);
        assert(s2[b] == s0[b0]);
    }
    assert forall|k: int| 0 <= k < s2.len() implies (#[trigger] s2[k].owner@) != s0[j].owner@ by {
        let k0: int = if k < j {
            k
        } else {
            k + 1
        };
        assert(s2[k] == s0[k0]);
    }
    lemma_has_position_iff(s2, s0[j].owner@);
    lemma_spec_position_absent(s2, s0[j].owner@);
    assert forall|u: Seq<char>| u != s0[j].owner@ implies spec_position(s2, u) == spec_position(
        s0,
        u,
    ) by {
        lemma_spec_position_remove_other(s0, j, u);
    }
}

/// One reward guild held as a value: its aggregate record, the
/// denomination its rewards are paid in, and every user's position. The
/// store keeps, as its well-formedness invariant, the conservation law
/// that the ledger's stake total equals the sum of all positions' stakes.
#[derive(Debug)]
pub struct Guild {
    /// The denomination rewards of this guild are paid out in.
    pub payout_denom: String,
    /// The guild's aggregate record.
    pub state: GuildState,
    /// Every user's position, at most one entry per owner.
    pub stakers: Vec<PositionEntry>,
}

impl Guild {
    /// The store's invariant.
    ///
    /// Conservation: the ledger's `total_stake_amount` is exactly the sum
    /// of all positions' stakes, and `total_staker` is exactly the number
    /// of positions holding a locked collectible. Each position's index
    /// snapshot never exceeds the guild index, a position without a locked
    /// collectible holds no stake, owners are distinct, and every emission
    /// window on record is valid.
    pub open spec fn wf(self) -> bool {
        &&& self.state.wf()
        &&& owners_unique(self.stakers@)
        &&& sum_stakes(self.stakers@) == self.state.total_stake_amount
        &&& count_locked(self.stakers@) == self.state.total_staker
        &&& forall|i: int|
            0 <= i < self.stakers@.len()
                ==> (#[trigger] self.stakers@[i].info.reward_index.atomics)
                <= self.state.global_reward_index.atomics
        &&& forall|i: int|
            0 <= i < self.stakers@.len() ==> ((#[trigger] self.stakers@[i].info.token_id) is None
                ==> self.stakers@[i].info.stake_amount == 0)
    }

    /// A guild as it is created: no stakers, accounting from `now`, paying
    /// rewards in `payout_denom`.
    pub fn new(payout_denom: String, now: u64) -> (r: Guild)
        ensures
            r.wf(),
            r.payout_denom == payout_denom,
            r.state.total_staker == 0,
            r.state.total_stake_amount == 0,
            r.state.last_distributed == now,
            r.state.global_reward_index.atomics == 0,
            r.state.distribution_schedule@.len() == 0,
            r.stakers@.len() == 0,
    {
        Guild { payout_denom, state: GuildState::new(now), stakers: Vec::new() }
    }

    /// The load-or-default accessor: the stored position of `user`, or the
    /// zero-valued default where none is stored.
    pub fn user_staking(&self, user: &String) -> (r: StakerInfo)
        ensures
            r == spec_position(self.stakers@, user@),
    {
        match find_position(&self.stakers, user) {
            Some(j) => {
                let entry = &self.stakers[j];
                proof {
                    lemma_spec_position_at(self.stakers@, j as int);
                }
                StakerInfo {
                    stake_amount: entry.info.stake_amount,
                    pending_rewards: entry.info.pending_rewards,
                    reward_index: entry.info.reward_index,
                    reward_claimed: entry.info.reward_claimed,
                    token_id: match &entry.info.token_id {
                        Some(t) => Some(t.clone()),
                        None => None,
                    },
                }
            },
            None => {
                proof {
                    lemma_spec_position_absent(self.stakers@, user@);
                }
                StakerInfo::new()
            },
        }
    }

    /// Locks `token_id` to the user's position, creating the position where
    /// none is stored, and admits the user to the guild's stakers. Refused
    /// while the user already holds a locked collectible here.
    pub fn lock(&mut self, user: &String, token_id: String) -> (r: Result<(), ContractError>)
        requires
            old(self).wf(),
        ensures
            final(self).wf(),
            final(self).payout_denom == old(self).payout_denom,
            r is Ok <==> lock_transition(
                old(self).state,
                spec_position(old(self).stakers@, user@),
                token_id,
            ) is Ok,
            r is Ok ==> ({
                let t = lock_transition(
                    old(self).state,
                    spec_position(old(self).stakers@, user@),
                    token_id,
                )->Ok_0;
                &&& final(self).state == t.0
                &&& spec_position(final(self).stakers@, user@) == t.1
            }),
            forall|u: Seq<char>|
                u != user@ ==> spec_position(final(self).stakers@, u) == spec_position(
                    old(self).stakers@,
                    u,
                ),
            r matches Err(e) ==> lock_transition(
                old(self).state,
                spec_position(old(self).stakers@, user@),
                token_id,
            ) == Err::<(GuildState, StakerInfo), _>(e) && final(self).state == old(self).state
                && final(self).stakers@ == old(self).stakers@,
    {
        let ghost s0 = self.stakers@;
        match find_position(&self.stakers, user) {
            Some(j) => {
                proof {
                    lemma_spec_position_at(s0, j as int);
                }
                let mut entry = self.stakers.remove(j);
                let ghost e0 = entry;
                let res = lock_nft(&mut self.state, &mut entry.info, token_id);
                let ghost e1 = entry;
                self.stakers.insert(j, entry);
                proof {
                    lemma_guild_entry_written_back(s0, j as int, e0, e1, self.stakers@);
                    if res is Err {
                        assert(self.stakers@ =~= s0);
                    } else {
                        assert(self.stakers@ =~= s0.update(j as int, e1));
                        lemma_store_update(s0, j as int, e1);
                        lemma_sums_update(s0, j as int, e1);
                    }
                }
                res
            },
            None => {
                proof {
                    lemma_spec_position_absent(s0, user@);
                    lemma_has_position_iff(s0, user@);
                    assert(StakerInfo {
                        stake_amount: 0,
                        pending_rewards: 0,
                        reward_index: Decimal { atomics: 0 },
                        reward_claimed: 0,
                        token_id: None,
                    } == empty_position());
                }
                let mut info = StakerInfo::new();
                let res = lock_nft(&mut self.state, &mut info, token_id);
                match res {
                    Ok(()) => {
                        let entry = PositionEntry { owner: user.clone(), info };
                        let ghost e1 = entry;
                        self.stakers.push(entry);
                        proof {
                            lemma_store_push(s0, e1);
                            lemma_sums_push(s0, e1);
                        }
                        Ok(())
                    },
                    Err(e) => Err(e),
                }
            },
        }
    }

    /// Adds `amount` of stake to the user's position, accruing the guild to
    /// `now` and settling the position first, so the new stake earns only
    /// from `now` on. Refused while the user holds no locked collectible.
    pub fn stake(&mut self, user: &String, amount: u128, now: u64) -> (r: Result<
        (),
        ContractError,
    >)
        requires
            old(self).wf(),
        ensures
            final(self).wf(),
            final(self).payout_denom == old(self).payout_denom,
            r is Ok <==> stake_transition(
                old(self).state,
                spec_position(old(self).stakers@, user@),
                amount,
                now,
            ) is Ok,
            r is Ok ==> ({
                let t = stake_transition(
                    old(self).state,
                    spec_position(old(self).stakers@, user@),
                    amount,
                    now,
                )->Ok_0;
                &&& final(self).state == t.0
                &&& spec_position(final(self).stakers@, user@) == t.1
            }),
            forall|u: Seq<char>|
                u != user@ ==> spec_position(final(self).stakers@, u) == spec_position(
                    old(self).stakers@,
                    u,
                ),
            r matches Err(e) ==> stake_transition(
                old(self).state,
                spec_position(old(self).stakers@, user@),
                amount,
                now,
            ) == Err::<(GuildState, StakerInfo), _>(e) && final(self).state == old(self).state
                && final(self).stakers@ == old(self).stakers@,
    {
        let ghost s0 = self.stakers@;
        match find_position(&self.stakers, user) {
            Some(j) => {
                proof {
                    lemma_spec_position_at(s0, j as int);
                }
                let mut entry = self.stakers.remove(j);
                let ghost e0 = entry;
                let res = stake_xqtum(&mut self.state, &mut entry.info, amount, now);
                let ghost e1 = entry;
                self.stakers.insert(j, entry);
                proof {
                    lemma_guild_entry_written_back(s0, j as int, e0, e1, self.stakers@);
                    if res is Err {
                        assert(self.stakers@ =~= s0);
                    } else {
                        assert(self.stakers@ =~= s0.update(j as int, e1));
                        lemma_store_update(s0, j as int, e1);
                        lemma_sums_update(s0, j as int, e1);
                        lemma_accrue_monotonic(old(self).state, now);
                    }
                }
                res
            },
            None => {
                proof {
                    lemma_spec_position_absent(s0, user@);
                }
                Err(ContractError::PreconditionViolated)
            },
        }
    }

    /// Removes `amount` of stake from the user's position, after accrual
    /// and settlement, and returns the refund instruction for the host to
    /// perform. Refused while the position holds less than `amount`.
    pub fn unstake(&mut self, user: &String, amount: u128, now: u64) -> (r: Result<
        Obligation,
        ContractError,
    >)
        requires
            old(self).wf(),
        ensures
            final(self).wf(),
            final(self).payout_denom == old(self).payout_denom,
            r is Ok <==> unstake_transition(
                old(self).state,
                spec_position(old(self).stakers@, user@),
                amount,
                now,
            ) is Ok,
            r matches Ok(ob) ==> ({
                let t = unstake_transition(
                    old(self).state,
                    spec_position(old(self).stakers@, user@),
                    amount,
                    now,
                )->Ok_0;
                &&& final(self).state == t.0
                &&& spec_position(final(self).stakers@, user@) == t.1
                &&& ob == (Obligation::StakeRefund { recipient: *user, amount })
            }),
            forall|u: Seq<char>|
                u != user@ ==> spec_position(final(self).stakers@, u) == spec_position(
                    old(self).stakers@,
                    u,
                ),
            r matches Err(e) ==> unstake_transition(
                old(self).state,
                spec_position(old(self).stakers@, user@),
                amount,
                now,
            ) == Err::<(GuildState, StakerInfo), _>(e) && final(self).state == old(self).state
                && final(self).stakers@ == old(self).stakers@,
    {
        let ghost s0 = self.stakers@;
        match find_position(&self.stakers, user) {
            Some(j) => {
                proof {
                    lemma_spec_position_at(s0, j as int);
                }
                let mut entry = self.stakers.remove(j);
                let ghost e0 = entry;
                let res = unstake_xqtum(&mut self.state, &mut entry.info, amount, now);
                let ghost e1 = entry;
                self.stakers.insert(j, entry);
                proof {
                    lemma_guild_entry_written_back(s0, j as int, e0, e1, self.stakers@);
                    if res is Err {
                        assert(self.stakers@ =~= s0);
                    } else {
                        assert(self.stakers@ =~= s0.update(j as int, e1));
                        lemma_store_update(s0, j as int, e1);
                        lemma_sums_update(s0, j as int, e1);
                        lemma_accrue_monotonic(old(self).state, now);
                    }
                }
                match res {
                    Ok(()) => Ok(
                        Obligation::StakeRefund { recipient: user.clone(), amount },
                    ),
                    Err(e) => Err(e),
                }
            },
            None => {
                proof {
                    lemma_spec_position_absent(s0, user@);
                    lemma_has_position_iff(s0, user@);
                }
                let mut info = StakerInfo::new();
                let res = unstake_xqtum(&mut self.state, &mut info, amount, now);
                match res {
                    Ok(()) => {
                        let entry = PositionEntry { owner: user.clone(), info };
                        let ghost e1 = entry;
                        self.stakers.push(entry);
                        proof {
                            lemma_store_push(s0, e1);
                            lemma_sums_push(s0, e1);
                            lemma_accrue_monotonic(old(self).state, now);
                        }
                        Ok(Obligation::StakeRefund { recipient: user.clone(), amount })
                    },
                    Err(e) => Err(e),
                }
            },
        }
    }

    /// Pays out the user's settled rewards without exiting: after accrual
    /// and settlement the whole pending balance moves to the claimed total,
    /// and the payout instruction is returned for the host to perform.
    pub fn withdraw(&mut self, user: &String, now: u64) -> (r: Result<Obligation, ContractError>)
        requires
            old(self).wf(),
        ensures
            final(self).wf(),
            final(self).payout_denom == old(self).payout_denom,
            r is Ok <==> withdraw_transition(
                old(self).state,
                spec_position(old(self).stakers@, user@),
                now,
            ) is Ok,
            r matches Ok(ob) ==> ({
                let t = withdraw_transition(
                    old(self).state,
                    spec_position(old(self).stakers@, user@),
                    now,
                )->Ok_0;
                &&& final(self).state == t.0
                &&& spec_position(final(self).stakers@, user@) == t.1
                &&& ob == (Obligation::RewardPayout {
                    recipient: *user,
                    denom: old(self).payout_denom,
                    amount: t.2,
                })
            }),
            forall|u: Seq<char>|
                u != user@ ==> spec_position(final(self).stakers@, u) == spec_position(
                    old(self).stakers@,
                    u,
                ),
            r matches Err(e) ==> withdraw_transition(
                old(self).state,
                spec_position(old(self).stakers@, user@),
                now,
            ) == Err::<(GuildState, StakerInfo, u128), _>(e) && final(self).state == old(
                self,
            ).state && final(self).stakers@ == old(self).stakers@,
    {
        let ghost s0 = self.stakers@;
        match find_position(&self.stakers, user) {
            Some(j) => {
                proof {
                    lemma_spec_position_at(s0, j as int);
                }
                let mut entry = self.stakers.remove(j);
                let ghost e0 = entry;
                let res = withdraw_reward(&mut self.state, &mut entry.info, now);
                let ghost e1 = entry;
                self.stakers.insert(j, entry);
                proof {
                    lemma_guild_entry_written_back(s0, j as int, e0, e1, self.stakers@);
                    if res is Err {
                        assert(self.stakers@ =~= s0);
                    } else {
                        assert(self.stakers@ =~= s0.update(j as int, e1));
                        lemma_store_update(s0, j as int, e1);
                        lemma_sums_update(s0, j as int, e1);
                        lemma_accrue_monotonic(old(self).state, now);
                    }
                }
                match res {
                    Ok(paid) => Ok(
                        Obligation::RewardPayout {
                            recipient: user.clone(),
                            denom: self.payout_denom.clone(),
                            amount: paid,
                        },
                    ),
                    Err(e) => Err(e),
                }
            },
            None => {
                proof {
                    lemma_spec_position_absent(s0, user@);
                    lemma_has_position_iff(s0, user@);
                }
                let mut info = StakerInfo::new();
                let res = withdraw_reward(&mut self.state, &mut info, now);
                match res {
                    Ok(paid) => {
                        let entry = PositionEntry { owner: user.clone(), info };
                        let ghost e1 = entry;
                        self.stakers.push(entry);
                        proof {
                            lemma_store_push(s0, e1);
                            lemma_sums_push(s0, e1);
                            lemma_accrue_monotonic(old(self).state, now);
                        }
                        Ok(
                            Obligation::RewardPayout {
                                recipient: user.clone(),
                                denom: self.payout_denom.clone(),
                                amount: paid,
                            },
                        )
                    },
                    Err(e) => Err(e),
                }
            },
        }
    }

    /// The all-or-nothing exit: with the matching collectible presented,
    /// the position is settled and deleted, the guild forgets the staker,
    /// and every obligation owed to the user — stake refund and reward
    /// payout where non-zero, and the collectible's return — is produced
    /// together. On failure nothing changes and nothing is owed.
    pub fn unlock(&mut self, user: &String, token_id: &String, now: u64) -> (r: Result<
        Vec<Obligation>,
        ContractError,
    >)
        requires
            old(self).wf(),
        ensures
            final(self).wf(),
            final(self).payout_denom == old(self).payout_denom,
            r is Ok <==> unlock_transition(
                old(self).state,
                spec_position(old(self).stakers@, user@),
                token_id@,
                now,
            ) is Ok,
            r matches Ok(obs) ==> ({
                let t = unlock_transition(
                    old(self).state,
                    spec_position(old(self).stakers@, user@),
                    token_id@,
                    now,
                )->Ok_0;
                &&& final(self).state == t.0
                &&& !has_position(final(self).stakers@, user@)
                &&& spec_position(final(self).stakers@, user@) == empty_position()
                &&& obs@ == unlock_obligations(*user, old(self).payout_denom, *token_id, t.1)
            }),
            forall|u: Seq<char>|
                u != user@ ==> spec_position(final(self).stakers@, u) == spec_position(
                    old(self).stakers@,
                    u,
                ),
            r matches Err(e) ==> unlock_transition(
                old(self).state,
                spec_position(old(self).stakers@, user@),
                token_id@,
                now,
            ) == Err::<(GuildState, UnlockSettlement), _>(e) && final(self).state == old(
                self,
            ).state && final(self).stakers@ == old(self).stakers@,
    {
        let ghost s0 = self.stakers@;
        match find_position(&self.stakers, user) {
            Some(j) => {
                proof {
                    lemma_spec_position_at(s0, j as int);
                }
                let entry = self.stakers.remove(j);
                let ghost e0 = entry;
                match unlock_nft(&mut self.state, &entry.info, token_id, now) {
                    Ok(settlement) => {
                        proof {
                            let s2 = self.stakers@;
                            lemma_store_remove(s0, j as int);
                            lemma_sums_remove(s0, j as int);
                            lemma_accrue_monotonic(old(self).state, now);
                            assert forall|i: int|
                                0 <= i < s2.len() implies (
                            #[trigger] s2[i].info.reward_index.atomics)
                                <= self.state.global_reward_index.atomics by {
                                assert(s2[i] == (if i < j as int {
                                    s0[i]
                                } else {
                                    s0[i + 1]
                                }));
                            }
                            assert forall|i: int|
                                0 <= i < s2.len() implies ((#[trigger] s2[i].info.token_id)
                                is None ==> s2[i].info.stake_amount == 0) by {
                                assert(s2[i] == (if i < j as int {
                                    s0[i]
                                } else {
                                    s0[i + 1]
                                }));
                            }
                        }
                        let mut obligations: Vec<Obligation> = Vec::new();
                        if settlement.refund_stake > 0 {
                            obligations.push(
                                Obligation::StakeRefund {
                                    recipient: user.clone(),
                                    amount: settlement.refund_stake,
                                },
                            );
                        }
                        if settlement.reward_payout > 0 {
                            obligations.push(
                                Obligation::RewardPayout {
                                    recipient: user.clone(),
                                    denom: self.payout_denom.clone(),
                                    amount: settlement.reward_payout,
                                },
                            );
                        }
                        obligations.push(
                            Obligation::CollectibleReturn {
                                recipient: user.clone(),
                                token_id: token_id.clone(),
                            },
                        );
                        proof {
                            assert(obligations@ =~= unlock_obligations(
                                *user,
                                self.payout_denom,
                                *token_id,
                                settlement,
                            ));
                        }
                        Ok(obligations)
                    },
                    Err(e) => {
                        self.stakers.insert(j, entry);
                        proof {
                            lemma_guild_entry_written_back(s0, j as int, e0, e0, self.stakers@);
                            assert(self.stakers@ =~= s0);
                        }
                        Err(e)
                    },
                }
            },
            None => {
                proof {
                    lemma_spec_position_absent(s0, user@);
                }
                Err(ContractError::PreconditionViolated)
            },
        }
    }

    /// Appends an emission window to the guild's schedule; owner-only, and
    /// the window must end strictly after it starts. The next accrual picks
    /// the window up lazily.
    pub fn set_distribution(
        &mut self,
        sender: &String,
        owner: &String,
        start_date: u64,
        end_date: u64,
        amount: u128,
    ) -> (r: Result<(), ContractError>)
        requires
            old(self).wf(),
        ensures
            final(self).wf(),
            final(self).payout_denom == old(self).payout_denom,
            final(self).stakers@ == old(self).stakers@,
            r is Ok <==> (sender@ == owner@ && end_date > start_date && old(
                self,
            ).state.total_rewards_distributed + amount <= u128::MAX),
            r is Ok ==> {
                &&& final(self).state.distribution_schedule@ == old(
                    self,
                ).state.distribution_schedule@.push(
                    DistributionWindow { start_date, end_date, amount },
                )
                &&& final(self).state.total_rewards_distributed == old(
                    self,
                ).state.total_rewards_distributed + amount
                &&& final(self).state.total_staker == old(self).state.total_staker
                &&& final(self).state.total_stake_amount == old(self).state.total_stake_amount
                &&& final(self).state.last_distributed == old(self).state.last_distributed
                &&& final(self).state.global_reward_index == old(self).state.global_reward_index
            },
            r is Err ==> final(self).state == old(self).state,
            r matches Err(e) ==> e == (if sender@ != owner@ {
                ContractError::Unauthorized
            } else if end_date <= start_date {
                ContractError::PreconditionViolated
            } else {
                ContractError::ArithmeticOverflow
            }),
    {
        set_distribution_schedule(&mut self.state, sender, owner, start_date, end_date, amount)
    }
}

/// The instructions a successful unlock produces, in order: the stake
/// refund where any stake was held, the reward payout where any reward was
/// pending, and always the collectible's return.
pub open spec fn unlock_obligations(
    user: String,
    denom: String,
    token_id: String,
    out: UnlockSettlement,
) -> Seq<Obligation> {
    let refunds: Seq<Obligation> = if out.refund_stake > 0 {
        seq![Obligation::StakeRefund { recipient: user, amount: out.refund_stake }]
    } else {
        Seq::empty()
    };
    let payouts: Seq<Obligation> = if out.reward_payout > 0 {
        seq![
            Obligation::RewardPayout { recipient: user, denom, amount: out.reward_payout },
        ]
    } else {
        Seq::empty()
    };
    refunds + payouts + seq![
        Obligation::CollectibleReturn { recipient: user, token_id },
    ]
}

/// Taking the entry at `j` out of the store and writing one with the same
/// owner back in its place is an update at `j`.
proof fn lemma_guild_entry_written_back(
    s0: Seq<PositionEntry>,
    j: int,
    e0: PositionEntry,
    e1: PositionEntry,
    s2: Seq<PositionEntry>,
)
    requires
        0 <= j < s0.len(),
        e0 == s0[j],
        e1.owner == e0.owner,
        s2 == s0.remove(j).insert(j, e1),
    ensures
        s2 =~= s0.update(j, e1),
        e1 == e0 ==> s2 =~= s0,
        forall|i: int| 0 <= i < s2.len() ==> (#[trigger] s2[i].owner@) == s0[i].owner@,
{
    assert(s2 =~= s0.update(j, e1));
    assert forall|i: int| 0 <= i < s2.len() implies (#[trigger] s2[i].owner@) == s0[i].owner@ by {
        if i != j {
            assert(s2[i] == s0[i]);
        }
    }
}

/// The index of the entry keyed by `user`, where one is stored.
fn find_position(stakers: &Vec<PositionEntry>, user: &String) -> (r: Option<usize>)
    ensures
        match r {
            Some(j) => {
                &&& j < stakers@.len()
                &&& stakers@[j as int].owner@ == user@
                &&& forall|k: int|
                    j < k < stakers@.len() ==> (#[trigger] stakers@[k].owner@) != user@
            },
            None => !has_position(stakers@, user@),
        },
{
    let n = stakers.len();
    let mut j: usize = 0;
    let mut found: Option<usize> = None;
    while j < n
        invariant
            n == stakers@.len(),
            j <= n,
            match found {
                Some(f) => {
                    &&& f < j
                    &&& stakers@[f as int].owner@ == user@
                    &&& forall|k: int| f < k < j ==> (#[trigger] stakers@[k].owner@) != user@
                },
                None => forall|k: int| 0 <= k < j ==> (#[trigger] stakers@[k].owner@) != user@,
            },
        decreases n - j,
    {
        let entry = &stakers[j];
        if entry.owner == *user {
            found = Some(j);
        }
        j += 1;
    }
    proof {
        if found is None {
            lemma_has_position_iff(stakers@, user@);
        }
    }
    found
}

} // verus!
