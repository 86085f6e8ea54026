use vstd::prelude::*;

verus! {

use vstd::arithmetic::div_mod::lemma_div_of0;
use vstd::arithmetic::mul::lemma_mul_by_zero_is_zero;

use crate::decimal::Decimal;
use crate::error::ContractError;
use crate::rewards::{
    accrue_ok, accrue_target, accrue_values, accrued_emission, accrued_index_atomics,
    accrued_state, settle_error_at, settle_ok_at, settle_values, settled_at,
};
use crate::schedule::DistributionWindow;
use crate::state::{GuildState, StakerInfo};

/// What an unlock hands back to the user besides the collectible itself:
/// the full staked amount and the full settled reward balance.
#[derive(Clone, Copy, Debug, PartialEq, Eq, Structural)]
pub struct UnlockSettlement {
    /// The stake returned to the user.
    pub refund_stake: u128,
    /// The settled pending rewards paid out to the user.
    pub reward_payout: u128,
}

/// The records a successful stake leaves, or the error a failing one
/// reports: the guild is accrued to `now`, the position settled against the
/// fresh index, and then both the position's stake and the guild's total
/// grow by `amount`. Staking is refused while no collectible is locked.
pub open spec fn stake_transition(
    state: GuildState,
    info: StakerInfo,
    amount: u128,
    now: u64,
) -> Result<(GuildState, StakerInfo), ContractError> {
    if info.token_id is None {
        Err(ContractError::PreconditionViolated)
    } else if !accrue_ok(state, now) {
        Err(ContractError::ArithmeticOverflow)
    } else {
        let s1 = accrued_state(state, now);
        if !settle_ok_at(s1.global_reward_index, info) {
            Err(settle_error_at(s1.global_reward_index, info))
        } else {
            let i1 = settled_at(s1.global_reward_index, info);
            if i1.stake_amount + amount > u128::MAX || s1.total_stake_amount + amount
                > u128::MAX {
                Err(ContractError::ArithmeticOverflow)
            } else {
                Ok(
                    (
                        GuildState {
                            total_stake_amount: (s1.total_stake_amount + amount) as u128,
                            ..s1
                        },
                        StakerInfo { stake_amount: (i1.stake_amount + amount) as u128, ..i1 },
                    ),
                )
            }
        }
    }
}

/// The records a successful unstake leaves, or the error a failing one
/// reports: refused outright when `amount` exceeds the position's stake;
/// else the guild is accrued, the position settled, and both stakes shrink
/// by `amount`.
pub open spec fn unstake_transition(
    state: GuildState,
    info: StakerInfo,
    amount: u128,
    now: u64,
) -> Result<(GuildState, StakerInfo), ContractError> {
    if info.stake_amount < amount {
        Err(ContractError::InsufficientBalance)
    } else if !accrue_ok(state, now) {
        Err(ContractError::ArithmeticOverflow)
    } else {
        let s1 = accrued_state(state, now);
        if !settle_ok_at(s1.global_reward_index, info) {
            Err(settle_error_at(s1.global_reward_index, info))
        } else {
            let i1 = settled_at(s1.global_reward_index, info);
            if s1.total_stake_amount < amount {
                Err(ContractError::ArithmeticOverflow)
            } else {
                Ok(
                    (
                        GuildState {
                            total_stake_amount: (s1.total_stake_amount - amount) as u128,
                            ..s1
                        },
                        StakerInfo { stake_amount: (i1.stake_amount - amount) as u128, ..i1 },
                    ),
                )
            }
        }
    }
}

/// The records a successful lock leaves, or the error a failing one
/// reports: the collectible is recorded on the position and the guild
/// gains a staker. Locking is refused while a collectible is already
/// locked.
pub open spec fn lock_transition(state: GuildState, info: StakerInfo, id: String) -> Result<
    (GuildState, StakerInfo),
    ContractError,
> {
    if info.token_id is Some {
        Err(ContractError::PreconditionViolated)
    } else if state.total_staker == u64::MAX {
        Err(ContractError::ArithmeticOverflow)
    } else {
        Ok(
            (
                GuildState { total_staker: (state.total_staker + 1) as u64, ..state },
                StakerInfo { token_id: Some(id), ..info },
            ),
        )
    }
}

/// The collectible on record matches the one presented.
pub open spec fn unlock_matches(info: StakerInfo, id: Seq<char>) -> bool {
    info.token_id matches Some(t) && t@ == id
}

/// The guild record and payouts a successful unlock leaves, or the error a
/// failing one reports: after accrual and settlement the position's whole
/// stake and settled rewards are due back to the user, the guild loses a
/// staker and the position's stake, and the position itself is to be
/// dropped by the caller. Refused when the presented collectible is not the
/// one on record.
pub open spec fn unlock_transition(
    state: GuildState,
    info: StakerInfo,
    id: Seq<char>,
    now: u64,
) -> Result<(GuildState, UnlockSettlement), ContractError> {
    if !unlock_matches(info, id) {
        Err(ContractError::PreconditionViolated)
    } else if !accrue_ok(state, now) {
        Err(ContractError::ArithmeticOverflow)
    } else {
        let s1 = accrued_state(state, now);
        if !settle_ok_at(s1.global_reward_index, info) {
            Err(settle_error_at(s1.global_reward_index, info))
        } else {
            let i1 = settled_at(s1.global_reward_index, info);
            if s1.total_staker == 0 || s1.total_stake_amount < info.stake_amount {
                Err(ContractError::ArithmeticOverflow)
            } else {
                Ok(
                    (
                        GuildState {
                            total_staker: (s1.total_staker - 1) as u64,
                            total_stake_amount: (s1.total_stake_amount - info.stake_amount)
                                as u128,
                            ..s1
                        },
                        UnlockSettlement {
                            refund_stake: info.stake_amount,
                            reward_payout: i1.pending_rewards,
                        },
                    ),
                )
            }
        }
    }
}

/// The records a successful withdraw leaves together with the amount paid
/// out, or the error a failing one reports: after accrual and settlement
/// the whole pending balance moves to the claimed total and is due to the
/// user.
pub open spec fn withdraw_transition(state: GuildState, info: StakerInfo, now: u64) -> Result<
    (GuildState, StakerInfo, u128),
    ContractError,
> {
    if !accrue_ok(state, now) {
        Err(ContractError::ArithmeticOverflow)
    } else {
        let s1 = accrued_state(state, now);
        if !settle_ok_at(s1.global_reward_index, info) {
            Err(settle_error_at(s1.global_reward_index, info))
        } else {
            let i1 = settled_at(s1.global_reward_index, info);
            if info.reward_claimed + i1.pending_rewards > u128::MAX {
                Err(ContractError::ArithmeticOverflow)
            } else {
                Ok(
                    (
                        s1,
                        StakerInfo {
                            pending_rewards: 0,
                            reward_claimed: (info.reward_claimed + i1.pending_rewards) as u128,
                            ..i1
                        },
                        i1.pending_rewards,
                    ),
                )
            }
        }
    }
}

/// Adds `amount` of stake to the user's position in the guild. The guild is
/// first accrued to `now` and the position settled, so the new stake earns
/// only from `now` on. Refused with a precondition violation while the
/// position holds no locked collectible. On failure both records are left
/// untouched.
pub fn stake_xqtum(
    state: &mut GuildState,
    staker_info: &mut StakerInfo,
    amount: u128,
    now: u64,
) -> (r: Result<(), ContractError>)
    requires
        old(state).wf(),
    ensures
        r is Ok <==> stake_transition(*old(state), *old(staker_info), amount, now) is Ok,
        r is Ok ==> stake_transition(*old(state), *old(staker_info), amount, now) == Ok::<
            _,
            ContractError,
        >((*final(state), *final(staker_info))),
        r matches Err(e) ==> stake_transition(*old(state), *old(staker_info), amount, now)
            == Err::<(GuildState, StakerInfo), _>(e),
        r is Err ==> *final(state) == *old(state) && *final(staker_info) == *old(staker_info),
        final(state).wf(),
{
    if staker_info.token_id.is_none() {
        return Err(ContractError::PreconditionViolated);
    }
    let (gi_atomics, target) = match accrue_values(state, now) {
        Ok(v) => v,
        Err(e) => {
            return Err(e);
        },
    };
    let gi = Decimal { atomics: gi_atomics };
    let pending = match settle_values(gi, staker_info) {
        Ok(p) => p,
        Err(e) => {
            return Err(e);
        },
    };
    let new_stake = match staker_info.stake_amount.checked_add(amount) {
        Some(v) => v,
        None => {
            return Err(ContractError::ArithmeticOverflow);
        },
    };
    let new_total = match state.total_stake_amount.checked_add(amount) {
        Some(v) => v,
        None => {
            return Err(ContractError::ArithmeticOverflow);
        },
    };
    state.global_reward_index = gi;
    state.last_distributed = target;
    state.total_stake_amount = new_total;
    staker_info.pending_rewards = pending;
    staker_info.reward_index = gi;
    staker_info.stake_amount = new_stake;
    Ok(())
}

/// Removes `amount` of stake from the user's position, after accrual and
/// settlement, and leaves the refund to be transferred by the caller.
/// Refused with an insufficient balance while the position holds less than
/// `amount`. On failure both records are left untouched.
pub fn unstake_xqtum(
    state: &mut GuildState,
    staker_info: &mut StakerInfo,
    amount: u128,
    now: u64,
) -> (r: Result<(), ContractError>)
    requires
        old(state).wf(),
    ensures
        r is Ok <==> unstake_transition(*old(state), *old(staker_info), amount, now) is Ok,
        r is Ok ==> unstake_transition(*old(state), *old(staker_info), amount, now) == Ok::<
            _,
            ContractError,
        >((*final(state), *final(staker_info))),
        r matches Err(e) ==> unstake_transition(*old(state), *old(staker_info), amount, now)
            == Err::<(GuildState, StakerInfo), _>(e),
        r is Err ==> *final(state) == *old(state) && *final(staker_info) == *old(staker_info),
        final(state).wf(),
{
    if staker_info.stake_amount < amount {
        return Err(ContractError::InsufficientBalance);
    }
    let (gi_atomics, target) = match accrue_values(state, now) {
        Ok(v) => v,
        Err(e) => {
            return Err(e);
        },
    };
    let gi = Decimal { atomics: gi_atomics };
    let pending = match settle_values(gi, staker_info) {
        Ok(p) => p,
        Err(e) => {
            return Err(e);
        },
    };
    let new_total = match state.total_stake_amount.checked_sub(amount) {
        Some(v) => v,
        None => {
            return Err(ContractError::ArithmeticOverflow);
        },
    };
    state.global_reward_index = gi;
    state.last_distributed = target;
    state.total_stake_amount = new_total;
    staker_info.pending_rewards = pending;
    staker_info.reward_index = gi;
    staker_info.stake_amount = staker_info.stake_amount - amount;
    Ok(())
}

/// Locks a collectible to the user's position, admitting the user to the
/// guild's stakers. Refused while the position already holds one. Locking
/// does not accrue: it changes no stake and no index.
pub fn lock_nft(state: &mut GuildState, staker_info: &mut StakerInfo, token_id: String) -> (r:
    Result<(), ContractError>)
    ensures
        r is Ok <==> lock_transition(*old(state), *old(staker_info), token_id) is Ok,
        r is Ok ==> lock_transition(*old(state), *old(staker_info), token_id) == Ok::<
            _,
            ContractError,
        >((*final(state), *final(staker_info))),
        r matches Err(e) ==> lock_transition(*old(state), *old(staker_info), token_id) == Err::<
            (GuildState, StakerInfo),
            _,
        >(e),
        r is Err ==> *final(state) == *old(state) && *final(staker_info) == *old(staker_info),
{
    if staker_info.token_id.is_some() {
        return Err(ContractError::PreconditionViolated);
    }
    let new_count = match state.total_staker.checked_add(1) {
        Some(v) => v,
        None => {
            return Err(ContractError::ArithmeticOverflow);
        },
    };
    staker_info.token_id = Some(token_id);
    state.total_staker = new_count;
    Ok(())
}

/// The all-or-nothing exit: after accrual and settlement, the position's
/// whole stake and settled rewards become due back to the user together
/// with the collectible, and the guild forgets the staker. The caller
/// drops the position record on success. Refused when the presented
/// collectible is not the one on record. On failure the guild record is
/// left untouched.
pub fn unlock_nft(
    state: &mut GuildState,
    staker_info: &StakerInfo,
    token_id: &String,
    now: u64,
) -> (r: Result<UnlockSettlement, ContractError>)
    requires
        old(state).wf(),
    ensures
        r is Ok <==> unlock_transition(*old(state), *staker_info, token_id@, now) is Ok,
        r matches Ok(out) ==> unlock_transition(*old(state), *staker_info, token_id@, now)
            == Ok::<_, ContractError>((*final(state), out)),
        r matches Err(e) ==> unlock_transition(*old(state), *staker_info, token_id@, now)
            == Err::<(GuildState, UnlockSettlement), _>(e),
        r is Err ==> *final(state) == *old(state),
        final(state).wf(),
{
    let matches_record = match &staker_info.token_id {
        Some(t) => *t == *token_id,
        None => false,
    };
    if !matches_record {
        return Err(ContractError::PreconditionViolated);
    }
    let (gi_atomics, target) = match accrue_values(state, now) {
        Ok(v) => v,
        Err(e) => {
            return Err(e);
        },
    };
    let gi = Decimal { atomics: gi_atomics };
    let pending = match settle_values(gi, staker_info) {
        Ok(p) => p,
        Err(e) => {
            return Err(e);
        },
    };
    let new_count = match state.total_staker.checked_sub(1) {
        Some(v) => v,
        None => {
            return Err(ContractError::ArithmeticOverflow);
        },
    };
    let new_total = match state.total_stake_amount.checked_sub(staker_info.stake_amount) {
        Some(v) => v,
        None => {
            return Err(ContractError::ArithmeticOverflow);
        },
    };
    state.global_reward_index = gi;
    state.last_distributed = target;
    state.total_staker = new_count;
    state.total_stake_amount = new_total;
    Ok(UnlockSettlement { refund_stake: staker_info.stake_amount, reward_payout: pending })
}

/// Pays out the user's settled rewards without exiting: after accrual and
/// settlement the whole pending balance moves to the claimed total and is
/// returned for the caller to transfer. On failure both records are left
/// untouched.
pub fn withdraw_reward(state: &mut GuildState, staker_info: &mut StakerInfo, now: u64) -> (r:
    Result<u128, ContractError>)
    requires
        old(state).wf(),
    ensures
        r is Ok <==> withdraw_transition(*old(state), *old(staker_info), now) is Ok,
        r matches Ok(paid) ==> withdraw_transition(*old(state), *old(staker_info), now) == Ok::<
            _,
            ContractError,
        >((*final(state), *final(staker_info), paid)),
        r matches Err(e) ==> withdraw_transition(*old(state), *old(staker_info), now) == Err::<
            (GuildState, StakerInfo, u128),
            _,
        >(e),
        r is Err ==> *final(state) == *old(state) && *final(staker_info) == *old(staker_info),
        final(state).wf(),
{
    let (gi_atomics, target) = match accrue_values(state, now) {
        Ok(v) => v,
        Err(e) => {
            return Err(e);
        },
    };
    let gi = Decimal { atomics: gi_atomics };
    let pending = match settle_values(gi, staker_info) {
        Ok(p) => p,
        Err(e) => {
            return Err(e);
        },
    };
    let new_claimed = match staker_info.reward_claimed.checked_add(pending) {
        Some(v) => v,
        None => {
            return Err(ContractError::ArithmeticOverflow);
        },
    };
    state.global_reward_index = gi;
    state.last_distributed = target;
    staker_info.reward_index = gi;
    staker_info.pending_rewards = 0;
    staker_info.reward_claimed = new_claimed;
    Ok(pending)
}

/// Admits only the owner: the single authorization rule for admin actions.
pub fn authorize_owner(sender: &String, owner: &String) -> (r: Result<(), ContractError>)
    ensures
        r is Ok <==> sender@ == owner@,
        r matches Err(e) ==> e == ContractError::Unauthorized,
{
    if *sender == *owner {
        Ok(())
    } else {
        Err(ContractError::Unauthorized)
    }
}

/// Appends an emission window to the guild's schedule and adds its amount
/// to the audit total. Only the owner may do this; a window that does not
/// end strictly after it starts is refused, keeping every window on record
/// valid. The new window is picked up lazily by the next accrual. On
/// failure the record is left untouched.
pub fn set_distribution_schedule(
    state: &mut GuildState,
    sender: &String,
    owner: &String,
    start_date: u64,
    end_date: u64,
    amount: u128,
) -> (r: Result<(), ContractError>)
    requires
        old(state).wf(),
    ensures
        r is Ok <==> (sender@ == owner@ && end_date > start_date && old(
            state,
        ).total_rewards_distributed + amount <= u128::MAX),
        r is Ok ==> {
            &&& final(state).distribution_schedule@ == old(
                state,
            ).distribution_schedule@.push(DistributionWindow { start_date, end_date, amount })
            &&& final(state).total_rewards_distributed == old(state).total_rewards_distributed
                + amount
            &&& final(state).total_staker == old(state).total_staker
            &&& final(state).total_stake_amount == old(state).total_stake_amount
            &&& final(state).last_distributed == old(state).last_distributed
            &&& final(state).global_reward_index == old(state).global_reward_index
        },
        r is Err ==> *final(state) == *old(state),
        r matches Err(e) ==> e == (if sender@ != owner@ {
            ContractError::Unauthorized
        } else if end_date <= start_date {
            ContractError::PreconditionViolated
        } else {
            ContractError::ArithmeticOverflow
        }),
        final(state).wf(),
{
    if !(*sender == *owner) {
        return Err(ContractError::Unauthorized);
    }
    if end_date <= start_date {
        return Err(ContractError::PreconditionViolated);
    }
    let new_total = match state.total_rewards_distributed.checked_add(amount) {
        Some(v) => v,
        None => {
            return Err(ContractError::ArithmeticOverflow);
        },
    };
    state.total_rewards_distributed = new_total;
    state.distribution_schedule.push(DistributionWindow { start_date, end_date, amount });
    Ok(())
}

/// Locking and immediately unlocking, with nothing staked and nothing
/// pending, is a round trip: the collectible comes back, no stake and no
/// reward is paid, the guild's stake total is unchanged and its staker
/// count returns to its prior value.
pub proof fn lemma_lock_unlock_round_trip(
    state: GuildState,
    info: StakerInfo,
    id: String,
    now: u64,
)
    requires
        state.wf(),
        info.token_id is None,
        info.stake_amount == 0,
        info.pending_rewards == 0,
        info.reward_index.atomics <= accrued_index_atomics(state, now),
        state.total_staker < u64::MAX,
        accrue_ok(state, now),
    ensures
        ({
            let locked = lock_transition(state, info, id);
            locked matches Ok(l) && {
                let unlocked = unlock_transition(l.0, l.1, id@, now);
                unlocked matches Ok(u) && {
                    &&& u.1.refund_stake == 0
                    &&& u.1.reward_payout == 0
                    &&& u.0.total_staker == state.total_staker
                    &&& u.0.total_stake_amount == state.total_stake_amount
                }
            }
        }),
{
    let l = lock_transition(state, info, id)->Ok_0;
    let s1 = l.0;
    let i1 = l.1;
    assert(s1.total_staker == state.total_staker + 1);
    assert(accrue_target(s1, now) == accrue_target(state, now));
    assert(accrued_emission(s1, now) == accrued_emission(state, now));
    assert(accrued_index_atomics(s1, now) == accrued_index_atomics(state, now));
    assert(accrue_ok(s1, now));
    let s2 = accrued_state(s1, now);
    assert(i1.reward_index.atomics <= s2.global_reward_index.atomics);
    lemma_mul_by_zero_is_zero(s2.global_reward_index.atomics - i1.reward_index.atomics);
    lemma_div_of0(crate::decimal::DECIMAL_FRACTIONAL as int);
    assert(settle_ok_at(s2.global_reward_index, i1));
    assert(settled_at(s2.global_reward_index, i1).pending_rewards == 0);
}

} // verus!
