use qtuamdao::decimal::DECIMAL_FRACTIONAL;
use qtuamdao::error::ContractError;
use qtuamdao::guild::{Guild, Obligation};
use qtuamdao::query::query_state;

fn owner() -> String {
    "owner".to_string()
}

fn guild_with_window(start: u64, end: u64, amount: u128) -> Guild {
    let mut guild = Guild::new("uusdt".to_string(), 0);
    guild
        .set_distribution(&owner(), &owner(), start, end, amount)
        .unwrap();
    guild
}

#[test]
fn sole_staker_earns_whole_window() {
    let mut guild = guild_with_window(0, 100, 1000);
    let alice = "alice".to_string();
    guild.lock(&alice, "nft-1".to_string()).unwrap();
    guild.stake(&alice, 100, 0).unwrap();
    let payout = guild.withdraw(&alice, 100).unwrap();
    assert_eq!(
        payout,
        Obligation::RewardPayout {
            recipient: alice.clone(),
            denom: "uusdt".to_string(),
            amount: 1000,
        }
    );
    let info = guild.user_staking(&alice);
    assert_eq!(info.pending_rewards, 0);
    assert_eq!(info.reward_claimed, 1000);
    assert_eq!(info.stake_amount, 100);
}

#[test]
fn late_joiner_splits_only_the_remaining_emission() {
    let mut guild = guild_with_window(0, 100, 1000);
    let alice = "alice".to_string();
    let bob = "bob".to_string();
    guild.lock(&alice, "nft-1".to_string()).unwrap();
    guild.stake(&alice, 100, 0).unwrap();
    guild.lock(&bob, "nft-2".to_string()).unwrap();
    guild.stake(&bob, 100, 50).unwrap();
    let alice_payout = guild.withdraw(&alice, 100).unwrap();
    let bob_payout = guild.withdraw(&bob, 100).unwrap();
    assert_eq!(
        alice_payout,
        Obligation::RewardPayout {
            recipient: alice.clone(),
            denom: "uusdt".to_string(),
            amount: 750,
        }
    );
    assert_eq!(
        bob_payout,
        Obligation::RewardPayout {
            recipient: bob.clone(),
            denom: "uusdt".to_string(),
            amount: 250,
        }
    );
}

#[test]
fn staker_joining_after_window_end_earns_nothing() {
    let mut guild = guild_with_window(0, 100, 1000);
    let late = "late".to_string();
    guild.lock(&late, "nft-9".to_string()).unwrap();
    guild.stake(&late, 100, 150).unwrap();
    let payout = guild.withdraw(&late, 400).unwrap();
    assert_eq!(
        payout,
        Obligation::RewardPayout {
            recipient: late.clone(),
            denom: "uusdt".to_string(),
            amount: 0,
        }
    );
}

#[test]
fn overstated_unstake_fails_and_changes_nothing() {
    let mut guild = guild_with_window(0, 100, 1000);
    let alice = "alice".to_string();
    guild.lock(&alice, "nft-1".to_string()).unwrap();
    guild.stake(&alice, 100, 0).unwrap();
    let state_before = guild.state.clone();
    let info_before = guild.user_staking(&alice);
    assert_eq!(
        guild.unstake(&alice, 200, 50),
        Err(ContractError::InsufficientBalance)
    );
    assert_eq!(guild.state, state_before);
    assert_eq!(guild.user_staking(&alice), info_before);
}

#[test]
fn stake_without_lock_fails_and_changes_nothing() {
    let mut guild = guild_with_window(0, 100, 1000);
    let alice = "alice".to_string();
    let state_before = guild.state.clone();
    assert_eq!(
        guild.stake(&alice, 100, 0),
        Err(ContractError::PreconditionViolated)
    );
    assert_eq!(guild.state, state_before);
    let info = guild.user_staking(&alice);
    assert_eq!(info.stake_amount, 0);
    assert_eq!(info.token_id, None);
}

#[test]
fn lock_twice_is_refused() {
    let mut guild = Guild::new("uusdt".to_string(), 0);
    let alice = "alice".to_string();
    guild.lock(&alice, "nft-1".to_string()).unwrap();
    assert_eq!(
        guild.lock(&alice, "nft-2".to_string()),
        Err(ContractError::PreconditionViolated)
    );
    assert_eq!(guild.state.total_staker, 1);
}

#[test]
fn unlock_with_mismatched_collectible_is_refused() {
    let mut guild = Guild::new("uusdt".to_string(), 0);
    let alice = "alice".to_string();
    guild.lock(&alice, "nft-1".to_string()).unwrap();
    assert_eq!(
        guild.unlock(&alice, &"nft-2".to_string(), 10),
        Err(ContractError::PreconditionViolated)
    );
    assert_eq!(guild.state.total_staker, 1);
    assert_eq!(
        guild.user_staking(&alice).token_id,
        Some("nft-1".to_string())
    );
}

#[test]
fn lock_unlock_round_trip_restores_the_ledger() {
    let mut guild = guild_with_window(0, 100, 1000);
    let alice = "alice".to_string();
    let stakers_before = guild.state.total_staker;
    let total_before = guild.state.total_stake_amount;
    guild.lock(&alice, "nft-1".to_string()).unwrap();
    assert_eq!(guild.state.total_staker, stakers_before + 1);
    let obligations = guild.unlock(&alice, &"nft-1".to_string(), 0).unwrap();
    assert_eq!(
        obligations,
        vec![Obligation::CollectibleReturn {
            recipient: alice.clone(),
            token_id: "nft-1".to_string(),
        }]
    );
    assert_eq!(guild.state.total_staker, stakers_before);
    assert_eq!(guild.state.total_stake_amount, total_before);
    assert_eq!(guild.user_staking(&alice).token_id, None);
}

#[test]
fn unlock_returns_stake_rewards_and_collectible_together() {
    let mut guild = guild_with_window(0, 100, 1000);
    let alice = "alice".to_string();
    guild.lock(&alice, "nft-1".to_string()).unwrap();
    guild.stake(&alice, 100, 0).unwrap();
    let obligations = guild.unlock(&alice, &"nft-1".to_string(), 100).unwrap();
    assert_eq!(
        obligations,
        vec![
            Obligation::StakeRefund {
                recipient: alice.clone(),
                amount: 100,
            },
            Obligation::RewardPayout {
                recipient: alice.clone(),
                denom: "uusdt".to_string(),
                amount: 1000,
            },
            Obligation::CollectibleReturn {
                recipient: alice.clone(),
                token_id: "nft-1".to_string(),
            },
        ]
    );
    assert_eq!(guild.state.total_staker, 0);
    assert_eq!(guild.state.total_stake_amount, 0);
}

#[test]
fn partial_unstake_refunds_and_keeps_earning() {
    let mut guild = guild_with_window(0, 100, 1000);
    let alice = "alice".to_string();
    guild.lock(&alice, "nft-1".to_string()).unwrap();
    guild.stake(&alice, 100, 0).unwrap();
    let refund = guild.unstake(&alice, 50, 50).unwrap();
    assert_eq!(
        refund,
        Obligation::StakeRefund {
            recipient: alice.clone(),
            amount: 50,
        }
    );
    assert_eq!(guild.state.total_stake_amount, 50);
    let payout = guild.withdraw(&alice, 100).unwrap();
    assert_eq!(
        payout,
        Obligation::RewardPayout {
            recipient: alice.clone(),
            denom: "uusdt".to_string(),
            amount: 1000,
        }
    );
}

#[test]
fn stake_and_unstake_conserve_the_total() {
    let mut guild = guild_with_window(0, 100, 1000);
    let alice = "alice".to_string();
    let bob = "bob".to_string();
    guild.lock(&alice, "nft-1".to_string()).unwrap();
    guild.lock(&bob, "nft-2".to_string()).unwrap();
    guild.stake(&alice, 70, 0).unwrap();
    guild.stake(&bob, 30, 0).unwrap();
    guild.unstake(&alice, 20, 0).unwrap();
    guild.stake(&bob, 5, 0).unwrap();
    let alice_stake = guild.user_staking(&alice).stake_amount;
    let bob_stake = guild.user_staking(&bob).stake_amount;
    assert_eq!(alice_stake, 50);
    assert_eq!(bob_stake, 35);
    assert_eq!(guild.state.total_stake_amount, alice_stake + bob_stake);
}

#[test]
fn set_distribution_is_owner_only() {
    let mut guild = Guild::new("uusdt".to_string(), 0);
    assert_eq!(
        guild.set_distribution(&"mallory".to_string(), &owner(), 0, 100, 1000),
        Err(ContractError::Unauthorized)
    );
    assert_eq!(guild.state.distribution_schedule.len(), 0);
}

#[test]
fn set_distribution_rejects_an_empty_window() {
    let mut guild = Guild::new("uusdt".to_string(), 0);
    assert_eq!(
        guild.set_distribution(&owner(), &owner(), 100, 100, 1000),
        Err(ContractError::PreconditionViolated)
    );
    assert_eq!(
        guild.set_distribution(&owner(), &owner(), 100, 40, 1000),
        Err(ContractError::PreconditionViolated)
    );
    assert_eq!(guild.state.distribution_schedule.len(), 0);
}

#[test]
fn set_distribution_appends_and_audits() {
    let mut guild = Guild::new("uusdt".to_string(), 0);
    guild
        .set_distribution(&owner(), &owner(), 0, 100, 1000)
        .unwrap();
    guild
        .set_distribution(&owner(), &owner(), 100, 200, 500)
        .unwrap();
    assert_eq!(guild.state.distribution_schedule.len(), 2);
    assert_eq!(guild.state.total_rewards_distributed, 1500);
    assert_eq!(guild.state.distribution_schedule[1].amount, 500);
}

#[test]
fn emissions_while_pool_is_empty_are_discarded() {
    let mut guild = guild_with_window(0, 100, 1000);
    let alice = "alice".to_string();
    guild.lock(&alice, "nft-1".to_string()).unwrap();
    // Staking at t=60: the emission over [0,60] fell on an empty pool.
    guild.stake(&alice, 100, 60).unwrap();
    let payout = guild.withdraw(&alice, 100).unwrap();
    assert_eq!(
        payout,
        Obligation::RewardPayout {
            recipient: alice.clone(),
            denom: "uusdt".to_string(),
            amount: 400,
        }
    );
}

#[test]
fn withdraw_without_a_record_pays_nothing() {
    let mut guild = guild_with_window(0, 100, 1000);
    let ghost_user = "nobody".to_string();
    let payout = guild.withdraw(&ghost_user, 50).unwrap();
    assert_eq!(
        payout,
        Obligation::RewardPayout {
            recipient: ghost_user.clone(),
            denom: "uusdt".to_string(),
            amount: 0,
        }
    );
    assert_eq!(guild.state.total_stake_amount, 0);
    assert_eq!(guild.state.total_staker, 0);
}

#[test]
fn unlock_without_a_record_is_refused() {
    let mut guild = Guild::new("uusdt".to_string(), 0);
    assert_eq!(
        guild.unlock(&"nobody".to_string(), &"nft-1".to_string(), 0),
        Err(ContractError::PreconditionViolated)
    );
}

#[test]
fn guilds_accrue_independently() {
    let mut ninja = guild_with_window(0, 100, 1000);
    let mut scientist = Guild::new("inj".to_string(), 0);
    scientist
        .set_distribution(&owner(), &owner(), 0, 100, 400)
        .unwrap();
    let alice = "alice".to_string();
    ninja.lock(&alice, "nft-1".to_string()).unwrap();
    ninja.stake(&alice, 100, 0).unwrap();
    scientist.lock(&alice, "nft-2".to_string()).unwrap();
    scientist.stake(&alice, 50, 0).unwrap();
    let ninja_payout = ninja.withdraw(&alice, 100).unwrap();
    let scientist_payout = scientist.withdraw(&alice, 100).unwrap();
    assert_eq!(
        ninja_payout,
        Obligation::RewardPayout {
            recipient: alice.clone(),
            denom: "uusdt".to_string(),
            amount: 1000,
        }
    );
    assert_eq!(
        scientist_payout,
        Obligation::RewardPayout {
            recipient: alice.clone(),
            denom: "inj".to_string(),
            amount: 400,
        }
    );
}

#[test]
fn queries_project_without_persisting() {
    let mut guild = guild_with_window(0, 100, 1000);
    let alice = "alice".to_string();
    guild.lock(&alice, "nft-1".to_string()).unwrap();
    guild.stake(&alice, 100, 0).unwrap();
    let projected = query_state(&guild.state, Some(50)).unwrap();
    assert_eq!(
        projected.global_reward_index.atomics,
        5 * DECIMAL_FRACTIONAL
    );
    assert_eq!(projected.last_distributed, 50);
    assert_eq!(guild.state.last_distributed, 0);
    assert_eq!(guild.state.global_reward_index.atomics, 0);
    let stored = query_state(&guild.state, None).unwrap();
    assert_eq!(stored.last_distributed, 0);
    assert_eq!(stored.total_stake_amount, 100);
}
