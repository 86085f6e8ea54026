use qtuamdao::decimal::{Decimal, DECIMAL_FRACTIONAL};
use qtuamdao::error::ContractError;
use qtuamdao::rewards::{compute_reward, compute_staker_reward};
use qtuamdao::schedule::DistributionWindow;
use qtuamdao::state::{GuildState, StakerInfo};

fn window(start_date: u64, end_date: u64, amount: u128) -> DistributionWindow {
    DistributionWindow {
        start_date,
        end_date,
        amount,
    }
}

fn guild_with(windows: Vec<DistributionWindow>, total_stake_amount: u128) -> GuildState {
    GuildState {
        total_rewards_distributed: windows.iter().map(|w| w.amount).sum(),
        total_staker: 1,
        total_stake_amount,
        last_distributed: 0,
        global_reward_index: Decimal { atomics: 0 },
        distribution_schedule: windows,
    }
}

#[test]
fn decimal_from_ratio_truncates() {
    let d = Decimal::from_ratio(10, 3).unwrap();
    assert_eq!(d.atomics, 3_333_333_333_333_333_333);
    let whole = Decimal::from_ratio(1000, 100).unwrap();
    assert_eq!(whole.atomics, 10 * DECIMAL_FRACTIONAL);
}

#[test]
fn decimal_from_ratio_overflows() {
    assert_eq!(
        Decimal::from_ratio(u128::MAX, 1),
        Err(ContractError::ArithmeticOverflow)
    );
}

#[test]
fn decimal_mul_floor_truncates() {
    let d = Decimal {
        atomics: 2 * DECIMAL_FRACTIONAL + DECIMAL_FRACTIONAL / 2,
    };
    assert_eq!(d.mul_floor(3).unwrap(), 7);
    assert_eq!(d.mul_floor(0).unwrap(), 0);
}

#[test]
fn decimal_mul_floor_overflows() {
    let d = Decimal { atomics: u128::MAX };
    assert_eq!(d.mul_floor(2), Err(ContractError::ArithmeticOverflow));
}

#[test]
fn decimal_checked_add_overflows() {
    let d = Decimal { atomics: u128::MAX };
    assert_eq!(
        d.checked_add(Decimal { atomics: 1 }),
        Err(ContractError::ArithmeticOverflow)
    );
    assert_eq!(
        d.checked_add(Decimal { atomics: 0 }).unwrap().atomics,
        u128::MAX
    );
}

#[test]
fn accrual_folds_whole_window() {
    let mut state = guild_with(vec![window(0, 100, 1000)], 100);
    compute_reward(&mut state, 100).unwrap();
    assert_eq!(state.global_reward_index.atomics, 10 * DECIMAL_FRACTIONAL);
    assert_eq!(state.last_distributed, 100);
}

#[test]
fn accrual_is_proportional_to_elapsed_time() {
    let mut state = guild_with(vec![window(0, 100, 1000)], 100);
    compute_reward(&mut state, 50).unwrap();
    assert_eq!(state.global_reward_index.atomics, 5 * DECIMAL_FRACTIONAL);
    assert_eq!(state.last_distributed, 50);
}

#[test]
fn accrual_is_idempotent_at_same_timestamp() {
    let mut state = guild_with(vec![window(0, 100, 1000)], 100);
    compute_reward(&mut state, 60).unwrap();
    let index_after_first = state.global_reward_index;
    compute_reward(&mut state, 60).unwrap();
    assert_eq!(state.global_reward_index, index_after_first);
    assert_eq!(state.last_distributed, 60);
}

#[test]
fn accrual_index_is_non_decreasing() {
    let mut state = guild_with(vec![window(0, 100, 1000)], 100);
    let mut previous = state.global_reward_index.atomics;
    for t in [10u64, 20, 20, 35, 90, 100, 150] {
        compute_reward(&mut state, t).unwrap();
        assert!(state.global_reward_index.atomics >= previous);
        previous = state.global_reward_index.atomics;
    }
}

#[test]
fn accrual_with_empty_pool_discards_emissions() {
    let mut state = guild_with(vec![window(0, 100, 1000)], 0);
    compute_reward(&mut state, 100).unwrap();
    assert_eq!(state.global_reward_index.atomics, 0);
    assert_eq!(state.last_distributed, 100);
}

#[test]
fn accrual_clamps_an_earlier_timestamp() {
    let mut state = guild_with(vec![window(0, 200, 1000)], 100);
    compute_reward(&mut state, 100).unwrap();
    let index_at_100 = state.global_reward_index;
    compute_reward(&mut state, 40).unwrap();
    assert_eq!(state.global_reward_index, index_at_100);
    assert_eq!(state.last_distributed, 100);
}

#[test]
fn accrual_skips_not_yet_started_windows() {
    let mut state = guild_with(vec![window(50, 100, 500), window(200, 300, 700)], 100);
    compute_reward(&mut state, 100).unwrap();
    assert_eq!(state.global_reward_index.atomics, 5 * DECIMAL_FRACTIONAL);
}

#[test]
fn accrual_sums_overlapping_windows() {
    let mut state = guild_with(vec![window(0, 100, 1000), window(50, 100, 500)], 100);
    compute_reward(&mut state, 100).unwrap();
    assert_eq!(state.global_reward_index.atomics, 15 * DECIMAL_FRACTIONAL);
}

#[test]
fn accrual_handles_gapped_windows() {
    let mut state = guild_with(vec![window(0, 10, 100), window(20, 30, 100)], 10);
    compute_reward(&mut state, 30).unwrap();
    assert_eq!(state.global_reward_index.atomics, 20 * DECIMAL_FRACTIONAL);
}

#[test]
fn accrual_keeps_fractional_emission() {
    // Rate 10/3 per second: the emission is carried at full 18-decimal
    // precision and truncated only when divided over the stake total.
    let mut state = guild_with(vec![window(0, 3, 10)], 3);
    compute_reward(&mut state, 3).unwrap();
    assert_eq!(state.global_reward_index.atomics, 3_333_333_333_333_333_333);

    let mut state = guild_with(vec![window(0, 3, 10)], 1);
    compute_reward(&mut state, 1).unwrap();
    assert_eq!(state.global_reward_index.atomics, 3_333_333_333_333_333_333);
}

#[test]
fn frequent_accrual_does_not_lose_the_emission() {
    // Half a token per second: accruing every single second must still
    // deliver the window's whole amount to the sole staker.
    let mut state = guild_with(vec![window(0, 1000, 500)], 1);
    for t in 1..=1000u64 {
        compute_reward(&mut state, t).unwrap();
    }
    let mut info = StakerInfo {
        stake_amount: 1,
        pending_rewards: 0,
        reward_index: Decimal { atomics: 0 },
        reward_claimed: 0,
        token_id: Some("nft".to_string()),
    };
    compute_staker_reward(&state, &mut info).unwrap();
    assert_eq!(info.pending_rewards, 500);
}

#[test]
fn accrual_reports_overflow_and_leaves_state_intact() {
    let mut state = guild_with(vec![window(0, 10, u128::MAX)], 1);
    let before = state.clone();
    assert_eq!(
        compute_reward(&mut state, 10),
        Err(ContractError::ArithmeticOverflow)
    );
    assert_eq!(state, before);
}

#[test]
fn settlement_pays_stake_times_index_delta() {
    let state = guild_with(vec![], 100);
    let state = GuildState {
        global_reward_index: Decimal {
            atomics: 5 * DECIMAL_FRACTIONAL,
        },
        ..state
    };
    let mut info = StakerInfo {
        stake_amount: 100,
        pending_rewards: 7,
        reward_index: Decimal {
            atomics: 2 * DECIMAL_FRACTIONAL,
        },
        reward_claimed: 0,
        token_id: Some("nft".to_string()),
    };
    compute_staker_reward(&state, &mut info).unwrap();
    assert_eq!(info.pending_rewards, 307);
    assert_eq!(info.reward_index, state.global_reward_index);
}

#[test]
fn settlement_twice_changes_nothing() {
    let state = guild_with(vec![], 100);
    let state = GuildState {
        global_reward_index: Decimal {
            atomics: 3 * DECIMAL_FRACTIONAL,
        },
        ..state
    };
    let mut info = StakerInfo {
        stake_amount: 40,
        pending_rewards: 0,
        reward_index: Decimal { atomics: 0 },
        reward_claimed: 0,
        token_id: Some("nft".to_string()),
    };
    compute_staker_reward(&state, &mut info).unwrap();
    let settled_once = info.clone();
    compute_staker_reward(&state, &mut info).unwrap();
    assert_eq!(info, settled_once);
}

#[test]
fn settlement_rejects_a_regressed_index() {
    let state = guild_with(vec![], 100);
    let mut info = StakerInfo {
        stake_amount: 1,
        pending_rewards: 0,
        reward_index: Decimal { atomics: 1 },
        reward_claimed: 0,
        token_id: None,
    };
    let before = info.clone();
    assert_eq!(
        compute_staker_reward(&state, &mut info),
        Err(ContractError::InsufficientBalance)
    );
    assert_eq!(info, before);
}

#[test]
fn settlement_reports_overflow() {
    let state = guild_with(vec![], 100);
    let state = GuildState {
        global_reward_index: Decimal { atomics: 2 },
        ..state
    };
    let mut info = StakerInfo {
        stake_amount: u128::MAX,
        pending_rewards: 0,
        reward_index: Decimal { atomics: 0 },
        reward_claimed: 0,
        token_id: Some("nft".to_string()),
    };
    assert_eq!(
        compute_staker_reward(&state, &mut info),
        Err(ContractError::ArithmeticOverflow)
    );
}
