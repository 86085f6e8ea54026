use vstd::prelude::*;

verus! {

use vstd::arithmetic::div_mod::{lemma_div_of0, lemma_div_pos_is_pos};
use vstd::arithmetic::mul::lemma_mul_by_zero_is_zero;
use vstd::math::max;

use crate::decimal::{Decimal, DECIMAL_FRACTIONAL};
use crate::error::ContractError;
use crate::schedule::{
    lemma_schedule_emission_empty_interval, lemma_schedule_emission_nonneg,
    lemma_schedule_emission_prefix_le, schedule_emission, schedule_emission_fits,
};
use crate::state::{GuildState, StakerInfo};

/// The timestamp an accrual at `now` brings the guild up to: `now`, clamped
/// so that accounting never runs backwards.
pub open spec fn accrue_target(state: GuildState, now: u64) -> int {
    max(now as int, state.last_distributed as int)
}

/// Atomic units the guild's schedule emits between the last accounted
/// timestamp and an accrual at `now`, at the rates' full precision.
pub open spec fn accrued_emission(state: GuildState, now: u64) -> int {
    schedule_emission(
        state.distribution_schedule@,
        state.last_distributed as int,
        accrue_target(state, now),
    )
}

/// The guild's reward index after an accrual at `now`, in atomic units:
/// unchanged while nobody stakes (emissions over an empty pool are
/// discarded by design), else grown by the emission divided by the stake
/// total. The emission is carried in atomic units throughout: the one
/// truncation is this division, at the index's own granularity.
pub open spec fn accrued_index_atomics(state: GuildState, now: u64) -> int {
    if state.total_stake_amount == 0 {
        state.global_reward_index.atomics as int
    } else {
        state.global_reward_index.atomics + accrued_emission(state, now) / (
        state.total_stake_amount as int)
    }
}

/// Every intermediate value of an accrual at `now` stays within `u128`.
pub open spec fn accrue_ok(state: GuildState, now: u64) -> bool {
    ||| state.total_stake_amount == 0
    ||| {
        &&& schedule_emission_fits(
            state.distribution_schedule@,
            state.last_distributed as int,
            accrue_target(state, now),
        )
        &&& accrued_index_atomics(state, now) <= u128::MAX
    }
}

/// The guild record after an accrual at `now`: the index and the
/// last-accounted timestamp advance, everything else stays.
pub open spec fn accrued_state(state: GuildState, now: u64) -> GuildState {
    GuildState {
        last_distributed: accrue_target(state, now) as u64,
        global_reward_index: Decimal { atomics: accrued_index_atomics(state, now) as u128 },
        ..state
    }
}

/// Computes the reward-index atomics and timestamp an accrual at `now`
/// would leave, without touching the record.
pub fn accrue_values(state: &GuildState, now: u64) -> (r: Result<(u128, u64), ContractError>)
    requires
        state.wf(),
    ensures
        r is Ok <==> accrue_ok(*state, now),
        r matches Ok(v) ==> v.0 == accrued_index_atomics(*state, now) && v.1 == accrue_target(
            *state,
            now,
        ),
        r matches Err(e) ==> e == ContractError::ArithmeticOverflow,
{
    let target: u64 = if now > state.last_distributed {
        now
    } else {
        state.last_distributed
    };
    if state.total_stake_amount == 0 {
        return Ok((state.global_reward_index.atomics, target));
    }
    let from = state.last_distributed;
    let schedule = &state.distribution_schedule;
    let n = schedule.len();
    let mut distributed: u128 = 0;
    let mut idx: usize = 0;
    while idx < n
        invariant
            n == schedule@.len(),
            idx <= n,
            schedule == state.distribution_schedule,
            state.wf(),
            from == state.last_distributed,
            target as int == accrue_target(*state, now),
            state.total_stake_amount != 0,
            distributed as int == schedule_emission(
                schedule@.take(idx as int),
                from as int,
                target as int,
            ),
            forall|i: int|
                0 <= i < idx ==> schedule@[i].emission_fits(from as int, target as int),
        decreases n - idx,
    {
        let w = schedule[idx];
        let ghost prefix = schedule@.take(idx as int);
        proof {
            assert(schedule@.take(idx as int + 1).drop_last() =~= prefix);
            assert(schedule@.take(idx as int + 1).last() == w);
        }
        if !(w.start_date > target || w.end_date < from) {
            let lower: u64 = if w.start_date > from {
                w.start_date
            } else {
                from
            };
            let upper: u64 = if w.end_date < target {
                w.end_date
            } else {
                target
            };
            let passed: u64 = upper - lower;
            let duration: u64 = w.end_date - w.start_date;
            let rate = match Decimal::from_ratio(w.amount, duration as u128) {
                Ok(d) => d,
                Err(e) => {
                    return Err(e);
                },
            };
            let contribution = match (passed as u128).checked_mul(rate.atomics) {
                Some(c) => c,
                None => {
                    return Err(ContractError::ArithmeticOverflow);
                },
            };
            proof {
                assert(contribution as int == w.emission(from as int, target as int));
            }
            distributed = match distributed.checked_add(contribution) {
                Some(d) => d,
                None => {
                    proof {
                        lemma_schedule_emission_prefix_le(
                            schedule@,
                            idx as int + 1,
                            from as int,
                            target as int,
                        );
                    }
                    return Err(ContractError::ArithmeticOverflow);
                },
            };
        }
        idx += 1;
    }
    proof {
        assert(schedule@.take(n as int) =~= schedule@);
    }
    let share: u128 = distributed / state.total_stake_amount;
    let new_index = match state.global_reward_index.checked_add(Decimal { atomics: share }) {
        Ok(d) => d,
        Err(e) => {
            return Err(e);
        },
    };
    Ok((new_index.atomics, target))
}

/// Brings the guild's reward index up to `block_time`: folds the schedule's
/// emissions since the last accounted timestamp into the index, dividing
/// them over the currently staked total. Emissions that fall while the pool
/// is empty are discarded. A `block_time` earlier than the last accounted
/// timestamp is treated as that timestamp, so accounting never runs
/// backwards. On any overflow the record is left untouched.
pub fn compute_reward(state: &mut GuildState, block_time: u64) -> (r: Result<(), ContractError>)
    requires
        old(state).wf(),
    ensures
        r is Ok <==> accrue_ok(*old(state), block_time),
        r is Ok ==> *final(state) == accrued_state(*old(state), block_time),
        r is Err ==> *final(state) == *old(state),
        r matches Err(e) ==> e == ContractError::ArithmeticOverflow,
        final(state).wf(),
        final(state).global_reward_index.atomics >= old(state).global_reward_index.atomics,
        final(state).last_distributed >= old(state).last_distributed,
{
    match accrue_values(state, block_time) {
        Ok((atomics, target)) => {
            proof {
                lemma_accrue_monotonic(*state, block_time);
            }
            state.global_reward_index = Decimal { atomics };
            state.last_distributed = target;
            Ok(())
        },
        Err(e) => Err(e),
    }
}

/// The reward index never regresses: whatever the schedule holds, an
/// accrual leaves the index at least where it was.
pub proof fn lemma_accrue_monotonic(state: GuildState, now: u64)
    requires
        state.wf(),
    ensures
        accrued_index_atomics(state, now) >= state.global_reward_index.atomics,
{
    if state.total_stake_amount != 0 {
        let from = state.last_distributed as int;
        let to = accrue_target(state, now);
        lemma_schedule_emission_nonneg(state.distribution_schedule@, from, to);
        lemma_div_pos_is_pos(accrued_emission(state, now), state.total_stake_amount as int);
    }
}

/// Accrual is idempotent: once a guild has been brought up to `now`,
/// accruing again at the same `now` succeeds and changes nothing.
pub proof fn lemma_accrue_idempotent(state: GuildState, now: u64)
    requires
        state.wf(),
        accrue_ok(state, now),
    ensures
        ({
            let s1 = accrued_state(state, now);
            accrue_ok(s1, now) && accrued_state(s1, now) == s1
        }),
{
    let s1 = accrued_state(state, now);
    let target = accrue_target(state, now);
    assert(s1.last_distributed == target as u64);
    assert(accrue_target(s1, now) == target);
    lemma_schedule_emission_empty_interval(s1.distribution_schedule@, target);
    assert(accrued_emission(s1, now) == 0);
    if s1.total_stake_amount != 0 {
        lemma_div_of0(s1.total_stake_amount as int);
        assert(accrued_index_atomics(s1, now) == s1.global_reward_index.atomics);
        assert forall|i: int|
            0 <= i < s1.distribution_schedule@.len() implies s1.distribution_schedule@[i].emission_fits(
            target,
            target,
        ) by {
            let w = s1.distribution_schedule@[i];
            if w.active(target, target) {
                assert(w.active(state.last_distributed as int, target));
                assert(w.emission_fits(state.last_distributed as int, target));
                assert(w.overlap(target, target) == 0);
                lemma_mul_by_zero_is_zero(w.rate_atomics());
            }
        }
        lemma_schedule_emission_empty_interval(s1.distribution_schedule@, target);
    } else {
        assert(accrued_index_atomics(s1, now) == s1.global_reward_index.atomics);
    }
    assert(accrued_state(s1, now) == s1);
}

/// Whole reward units owed to a position since its last settlement, against
/// a guild index of `gi`: the stake times the index delta, truncated.
pub open spec fn owed_at(gi: Decimal, info: StakerInfo) -> int {
    info.stake_amount * (gi.atomics - info.reward_index.atomics) / (DECIMAL_FRACTIONAL as int)
}

/// A settlement against index `gi` succeeds: the index has not regressed
/// below the position's snapshot, and the owed and pending amounts fit.
pub open spec fn settle_ok_at(gi: Decimal, info: StakerInfo) -> bool {
    &&& info.reward_index.atomics <= gi.atomics
    &&& info.stake_amount * (gi.atomics - info.reward_index.atomics) <= u128::MAX
    &&& info.pending_rewards + owed_at(gi, info) <= u128::MAX
}

/// The error a failing settlement reports: a regressed index is a balance
/// that would go negative, anything else is an overflow.
pub open spec fn settle_error_at(gi: Decimal, info: StakerInfo) -> ContractError {
    if info.reward_index.atomics > gi.atomics {
        ContractError::InsufficientBalance
    } else {
        ContractError::ArithmeticOverflow
    }
}

/// The position after a settlement against index `gi`: the owed amount is
/// folded into the pending balance and the snapshot catches up to `gi`.
pub open spec fn settled_at(gi: Decimal, info: StakerInfo) -> StakerInfo {
    StakerInfo {
        pending_rewards: (info.pending_rewards + owed_at(gi, info)) as u128,
        reward_index: gi,
        ..info
    }
}

/// Computes the pending balance a settlement against index `gi` would
/// leave, without touching the record.
pub(crate) fn settle_values(gi: Decimal, info: &StakerInfo) -> (r: Result<u128, ContractError>)
    ensures
        r is Ok <==> settle_ok_at(gi, *info),
        r matches Ok(p) ==> p == info.pending_rewards + owed_at(gi, *info),
        r matches Err(e) ==> e == settle_error_at(gi, *info),
{
    if info.reward_index.atomics > gi.atomics {
        return Err(ContractError::InsufficientBalance);
    }
    let delta = Decimal { atomics: gi.atomics - info.reward_index.atomics };
    let owed: u128 = match delta.mul_floor(info.stake_amount) {
        Ok(v) => v,
        Err(e) => {
            return Err(e);
        },
    };
    match info.pending_rewards.checked_add(owed) {
        Some(pending) => Ok(pending),
        None => Err(ContractError::ArithmeticOverflow),
    }
}

/// Settles the position against the guild's current index: folds the index
/// growth since the position's snapshot into its pending rewards and moves
/// the snapshot up to the current index. Call only on an already-accrued
/// guild, so the index reflects all emissions to date. On failure the
/// position is left untouched.
pub fn compute_staker_reward(state: &GuildState, staker_info: &mut StakerInfo) -> (r: Result<
    (),
    ContractError,
>)
    ensures
        r is Ok <==> settle_ok_at(state.global_reward_index, *old(staker_info)),
        r is Ok ==> *final(staker_info) == settled_at(state.global_reward_index, *old(staker_info)),
        r is Err ==> *final(staker_info) == *old(staker_info),
        r matches Err(e) ==> e == settle_error_at(state.global_reward_index, *old(staker_info)),
{
    match settle_values(state.global_reward_index, staker_info) {
        Ok(pending) => {
            staker_info.pending_rewards = pending;
            staker_info.reward_index = state.global_reward_index;
            Ok(())
        },
        Err(e) => Err(e),
    }
}

/// Settlement is idempotent: settling a position twice in a row against the
/// same index succeeds and leaves the pending rewards of the second call
/// unchanged.
pub proof fn lemma_settle_idempotent(gi: Decimal, info: StakerInfo)
    requires
        settle_ok_at(gi, info),
    ensures
        settle_ok_at(gi, settled_at(gi, info)),
        settled_at(gi, settled_at(gi, info)) == settled_at(gi, info),
{
    let i1 = settled_at(gi, info);
    assert(i1.reward_index == gi);
    lemma_mul_by_zero_is_zero(i1.stake_amount as int);
    lemma_div_of0(DECIMAL_FRACTIONAL as int);
    assert(owed_at(gi, i1) == 0);
    assert(settled_at(gi, i1) == i1);
}

} // verus!
