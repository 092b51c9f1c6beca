use osmo_lp_lockdrop::claims::{Claim, MAX_CLAIMS};
use osmo_lp_lockdrop::config::{BlockInfo, Duration, Expiration, Role};
use osmo_lp_lockdrop::contract::{instantiate, State};
use osmo_lp_lockdrop::error::ContractError;
use osmo_lp_lockdrop::hooks::StakeChange;
use osmo_lp_lockdrop::rewards::Denom;

fn s(x: &str) -> String {
    x.to_string()
}

fn state(duration: Option<Duration>) -> State {
    instantiate(Some(s("owner")), Some(s("manager")), s("ujuno"), duration, 7, 1).unwrap()
}

fn block(height: u64) -> BlockInfo {
    BlockInfo { height, time: height * 5_000_000_000 }
}

#[test]
fn first_deposit_issues_one_share_per_unit() {
    let mut st = state(None);
    let r = st.execute_stake(&s("alice"), 1000, 2).unwrap();
    assert_eq!(r.shares, 1000);
    assert_eq!(st.query_total_value(), 1000);
    assert_eq!(st.query_total_staked_at_height(None, 2).balance, 1000);
    assert_eq!(st.query_staked_balance_at_height(&s("alice"), None, 2).balance, 1000);
}

#[test]
fn deposit_rounds_down() {
    let mut st = state(None);
    st.execute_stake(&s("alice"), 100, 2).unwrap();
    st.execute_fund(200).unwrap();
    assert_eq!(st.query_total_value(), 300);
    let r = st.execute_stake(&s("bob"), 7, 3).unwrap();
    assert_eq!(r.shares, 2);
    assert_eq!(st.query_total_staked_at_height(None, 3).balance, 102);
    assert_eq!(st.query_total_value(), 307);
}

#[test]
fn deposit_after_withdrawal_keeps_rate() {
    let mut st = state(None);
    st.execute_stake(&s("alice"), 100, 2).unwrap();
    st.execute_unstake(&s("alice"), 50, &block(3)).unwrap();
    let r = st.execute_stake(&s("bob"), 40, 4).unwrap();
    assert_eq!(r.shares, 40);
}

#[test]
fn full_withdrawal_takes_whole_balance() {
    let mut st = state(None);
    st.execute_stake(&s("alice"), 500, 2).unwrap();
    st.execute_fund(100).unwrap();
    let r = st.execute_unstake(&s("alice"), 500, &block(3)).unwrap();
    assert_eq!(r.value, 600);
    assert_eq!(r.release_at, None);
    assert_eq!(st.query_total_value(), 0);
    assert_eq!(st.query_total_staked_at_height(None, 3).balance, 0);
    assert_eq!(st.query_staked_balance_at_height(&s("alice"), None, 3).balance, 0);
}

#[test]
fn withdraw_with_no_shares_outstanding_fails() {
    let mut st = state(None);
    assert_eq!(st.execute_unstake(&s("alice"), 10, &block(2)), Err(ContractError::InvalidUnstakeAmount));
    st.execute_fund(1000).unwrap();
    assert_eq!(st.execute_unstake(&s("alice"), 10, &block(2)), Err(ContractError::InvalidUnstakeAmount));
}

#[test]
fn withdraw_beyond_holding_fails_and_changes_nothing() {
    let mut st = state(None);
    st.execute_stake(&s("alice"), 100, 2).unwrap();
    st.execute_stake(&s("bob"), 100, 2).unwrap();
    let before = st.clone();
    assert_eq!(st.execute_unstake(&s("alice"), 101, &block(3)), Err(ContractError::InvalidUnstakeAmount));
    assert_eq!(st.execute_unstake(&s("carol"), 1, &block(3)), Err(ContractError::InvalidUnstakeAmount));
    assert_eq!(st.execute_unstake(&s("alice"), 0, &block(3)), Err(ContractError::InvalidUnstakeAmount));
    assert_eq!(st, before);
}

#[test]
fn stake_overflow_is_reported() {
    let mut st = state(None);
    st.execute_stake(&s("alice"), u128::MAX, 2).unwrap();
    assert_eq!(st.execute_fund(1), Err(ContractError::Overflow));
    assert_eq!(st.execute_stake(&s("bob"), 2, 2).map(|r| r.shares), Err(ContractError::Overflow));
}

#[test]
fn shares_add_up_to_total() {
    let mut st = state(None);
    st.execute_stake(&s("alice"), 300, 2).unwrap();
    st.execute_stake(&s("bob"), 200, 3).unwrap();
    st.execute_fund(50).unwrap();
    st.execute_stake(&s("carol"), 77, 4).unwrap();
    st.execute_unstake(&s("bob"), 120, &block(5)).unwrap();
    st.execute_stake(&s("alice"), 9, 6).unwrap();
    let sum: u128 = ["alice", "bob", "carol"]
        .iter()
        .map(|a| st.query_staked_balance_at_height(&s(a), None, 6).balance)
        .sum();
    assert_eq!(sum, st.query_total_staked_at_height(None, 6).balance);
}

#[test]
fn past_snapshots_do_not_change() {
    let mut st = state(None);
    st.execute_stake(&s("alice"), 100, 10).unwrap();
    assert_eq!(st.query_staked_balance_at_height(&s("alice"), Some(10), 10).balance, 100);
    st.execute_stake(&s("alice"), 50, 20).unwrap();
    st.execute_unstake(&s("alice"), 30, &block(30)).unwrap();
    assert_eq!(st.query_staked_balance_at_height(&s("alice"), Some(9), 30).balance, 0);
    assert_eq!(st.query_staked_balance_at_height(&s("alice"), Some(10), 30).balance, 100);
    assert_eq!(st.query_staked_balance_at_height(&s("alice"), Some(19), 30).balance, 100);
    assert_eq!(st.query_staked_balance_at_height(&s("alice"), Some(20), 30).balance, 150);
    assert_eq!(st.query_staked_balance_at_height(&s("alice"), Some(30), 30).balance, 120);
    assert_eq!(st.query_total_staked_at_height(Some(15), 30).balance, 100);
    assert_eq!(st.query_total_staked_at_height(Some(0), 30).balance, 0);
    let r = st.query_staked_balance_at_height(&s("nobody"), None, 30);
    assert_eq!((r.balance, r.height), (0, 30));
}

#[test]
fn claim_cap_is_enforced() {
    let mut st = state(Some(Duration::Height(10)));
    st.execute_stake(&s("alice"), 1000, 2).unwrap();
    for _ in 0..MAX_CLAIMS {
        st.execute_unstake(&s("alice"), 1, &block(3)).unwrap();
    }
    assert_eq!(st.query_claims(&s("alice")).len(), MAX_CLAIMS);
    let before = st.clone();
    assert_eq!(st.execute_unstake(&s("alice"), 1, &block(3)), Err(ContractError::TooManyClaims));
    assert_eq!(st, before);
    // another holder is not affected
    st.execute_stake(&s("bob"), 10, 3).unwrap();
    assert!(st.execute_unstake(&s("bob"), 1, &block(3)).is_ok());
}

#[test]
fn claim_matures_at_release_height() {
    let mut st = state(Some(Duration::Height(10)));
    st.execute_stake(&s("alice"), 1000, 2).unwrap();
    st.execute_fund(1000).unwrap();
    let r = st.execute_unstake(&s("alice"), 100, &block(5)).unwrap();
    assert_eq!(r.value, 200);
    assert_eq!(r.release_at, Some(Expiration::AtHeight(15)));
    assert_eq!(st.query_total_value(), 1800);
    assert_eq!(st.execute_claim(&s("alice"), &block(14)), Err(ContractError::NothingToClaim));
    assert_eq!(st.query_claims(&s("alice")), vec![Claim { amount: 200, release_at: Expiration::AtHeight(15) }]);
    assert_eq!(st.execute_claim(&s("alice"), &block(15)), Ok(200));
    assert!(st.query_claims(&s("alice")).is_empty());
    assert_eq!(st.execute_claim(&s("alice"), &block(16)), Err(ContractError::NothingToClaim));
}

#[test]
fn partial_maturity_keeps_later_claims() {
    let mut st = state(Some(Duration::Time(60)));
    st.execute_stake(&s("alice"), 1000, 2).unwrap();
    let a = st.execute_unstake(&s("alice"), 10, &block(2)).unwrap();
    let b = st.execute_unstake(&s("alice"), 20, &block(20)).unwrap();
    assert_eq!(a.release_at, Some(Expiration::AtTime(10_000_000_000 + 60_000_000_000)));
    assert_eq!(b.release_at, Some(Expiration::AtTime(100_000_000_000 + 60_000_000_000)));
    let now = BlockInfo { height: 21, time: 70_000_000_000 };
    assert_eq!(st.execute_claim(&s("alice"), &now), Ok(10));
    assert_eq!(st.query_claims(&s("alice")), vec![Claim { amount: 20, release_at: Expiration::AtTime(160_000_000_000) }]);
    let later = BlockInfo { height: 40, time: 200_000_000_000 };
    assert_eq!(st.execute_claim(&s("alice"), &later), Ok(20));
}

#[test]
fn cooldown_overflow_is_reported() {
    let mut st = state(Some(Duration::Height(10)));
    st.execute_stake(&s("alice"), 1000, 2).unwrap();
    let r = st.execute_unstake(&s("alice"), 1, &BlockInfo { height: u64::MAX - 5, time: 0 });
    assert_eq!(r, Err(ContractError::Overflow));
}

#[test]
fn hooks_are_told_in_order() {
    let mut st = state(None);
    st.execute_add_hook(&s("owner"), s("h1")).unwrap();
    st.execute_add_hook(&s("manager"), s("h2")).unwrap();
    let r = st.execute_stake(&s("alice"), 40, 2).unwrap();
    let hooks: Vec<String> = r.hook_msgs.iter().map(|m| m.hook.clone()).collect();
    assert_eq!(hooks, vec![s("h1"), s("h2")]);
    assert!(r.hook_msgs.iter().all(|m| m.change == StakeChange::Stake && m.addr == "alice" && m.amount == 40));
    let u = st.execute_unstake(&s("alice"), 15, &block(3)).unwrap();
    assert!(u.hook_msgs.iter().all(|m| m.change == StakeChange::Unstake && m.amount == 15));
}

#[test]
fn hook_registration_is_checked() {
    let mut st = state(None);
    st.execute_add_hook(&s("owner"), s("h1")).unwrap();
    let before = st.clone();
    assert_eq!(st.execute_add_hook(&s("owner"), s("h1")), Err(ContractError::HookAlreadyRegistered));
    assert_eq!(st, before);
    assert_eq!(st.execute_remove_hook(&s("owner"), &s("h9")), Err(ContractError::HookNotRegistered));
    assert_eq!(st, before);
    assert_eq!(st.execute_add_hook(&s("mallory"), s("h2")), Err(ContractError::Unauthorized));
    assert_eq!(st.execute_remove_hook(&s("mallory"), &s("h1")), Err(ContractError::Unauthorized));
    assert_eq!(st, before);
    st.execute_add_hook(&s("owner"), s("h2")).unwrap();
    st.execute_add_hook(&s("owner"), s("h3")).unwrap();
    st.execute_remove_hook(&s("manager"), &s("h2")).unwrap();
    assert_eq!(st.query_hooks(), vec![s("h1"), s("h3")]);
}

#[test]
fn staked_value_is_proportional() {
    let mut st = state(None);
    assert_eq!(st.query_staked_value(&s("alice")), Ok(0));
    st.execute_stake(&s("alice"), 300, 2).unwrap();
    st.execute_stake(&s("bob"), 100, 2).unwrap();
    st.execute_fund(100).unwrap();
    assert_eq!(st.query_staked_value(&s("alice")), Ok(375));
    assert_eq!(st.query_staked_value(&s("bob")), Ok(125));
    assert_eq!(st.query_staked_value(&s("carol")), Ok(0));
}

#[test]
fn zero_cooldown_is_rejected() {
    assert!(matches!(
        instantiate(None, None, s("ujuno"), Some(Duration::Height(0)), 1, 1),
        Err(ContractError::InvalidUnstakingDuration)
    ));
    assert!(matches!(
        instantiate(None, None, s("ujuno"), Some(Duration::Time(0)), 1, 1),
        Err(ContractError::InvalidUnstakingDuration)
    ));
}

#[test]
fn config_update_rules() {
    let mut st = state(None);
    assert_eq!(
        st.execute_update_config(&s("mallory"), Some(s("owner")), None, None),
        Err(ContractError::Unauthorized)
    );
    assert_eq!(
        st.execute_update_config(&s("manager"), Some(s("manager")), Some(s("manager")), None),
        Err(ContractError::OnlyOwnerCanChangeOwner)
    );
    assert_eq!(
        st.execute_update_config(&s("owner"), Some(s("owner")), None, Some(Duration::Time(0))),
        Err(ContractError::InvalidUnstakingDuration)
    );
    st.execute_update_config(&s("manager"), Some(s("owner")), Some(s("m2")), Some(Duration::Height(5))).unwrap();
    let c = st.query_config();
    assert_eq!(c.manager, Some(s("m2")));
    assert_eq!(c.unstaking_duration, Some(Duration::Height(5)));
    st.execute_update_config(&s("owner"), Some(s("o2")), None, None).unwrap();
    assert_eq!(st.query_config().owner, Some(s("o2")));
    assert_eq!(st.query_config().manager, None);
}

#[test]
fn reward_contracts_are_registered_per_denom() {
    let mut st = state(None);
    assert_eq!(st.execute_distribute_token(&s("ujuno")), Err(ContractError::Unauthorized));
    assert_eq!(st.execute_distribute_token(&s("uatom")), Ok(true));
    assert_eq!(st.reply(&Denom::Cw20(s("cw20addr")), s("c0")), Err(ContractError::InvalidDenom));
    assert_eq!(st.reply(&Denom::Native(s("uatom")), s("c1")), Ok(s("uatom")));
    assert_eq!(st.execute_distribute_token(&s("uatom")), Ok(false));
    assert_eq!(
        st.execute_fund_rewards_contract(&s("uosmo"), &Denom::Native(s("uosmo"))).map(|t| t.contract),
        Err(ContractError::RewardContractNotFound)
    );
    let t = st.execute_fund_rewards_contract(&s("uatom"), &Denom::Native(s("uatom"))).unwrap();
    assert_eq!((t.contract, t.denom), (s("c1"), s("uatom")));
    assert_eq!(
        st.execute_fund_rewards_contract(&s("uatom"), &Denom::Cw20(s("x"))).map(|t| t.contract),
        Err(ContractError::InvalidDenom)
    );
    st.reply(&Denom::Native(s("uosmo")), s("c2")).unwrap();
    st.reply(&Denom::Native(s("uatom")), s("c3")).unwrap();
    assert_eq!(st.query_all_reward_contracts(), vec![s("c3"), s("c2")]);
}

#[test]
fn distribute_all_skips_staked_denom() {
    let st = state(None);
    let held = vec![s("uatom"), s("ujuno"), s("uosmo")];
    assert_eq!(st.execute_distribute_all_tokens(&held), vec![s("uatom"), s("uosmo")]);
}

#[test]
fn only_manager_starts_rebalance() {
    let st = state(None);
    assert_eq!(st.execute_eject_and_seed_liquidity(&s("manager")), Ok(()));
    assert_eq!(st.execute_eject_and_seed_liquidity(&s("owner")), Err(ContractError::Unauthorized));
}

#[test]
fn stakers_are_listed_in_address_order() {
    let mut st = state(None);
    for (who, amount) in [("carol", 30u128), ("alice", 10), ("dave", 40), ("bob", 20)] {
        st.execute_stake(&s(who), amount, 2).unwrap();
    }
    let all: Vec<(String, u128)> = st
        .query_list_stakers(&None, None)
        .into_iter()
        .map(|b| (b.address, b.balance))
        .collect();
    assert_eq!(all, vec![(s("alice"), 10), (s("bob"), 20), (s("carol"), 30), (s("dave"), 40)]);
    let page: Vec<String> = st
        .query_list_stakers(&Some(s("alice")), Some(2))
        .into_iter()
        .map(|b| b.address)
        .collect();
    assert_eq!(page, vec![s("bob"), s("carol")]);
    let rest: Vec<String> = st
        .query_list_stakers(&Some(s("carol")), Some(10))
        .into_iter()
        .map(|b| b.address)
        .collect();
    assert_eq!(rest, vec![s("dave")]);
    assert!(st.query_list_stakers(&Some(s("b")), Some(0)).is_empty());
    assert_eq!(st.query_list_stakers(&Some(s("b")), None).len(), 3);
}

#[test]
fn roles_follow_config() {
    let st = state(None);
    assert_eq!(st.query_config().role(&s("owner")), Role::Owner);
    assert_eq!(st.query_config().role(&s("manager")), Role::Manager);
    assert_eq!(st.query_config().role(&s("someone")), Role::Neither);
}
