use osmo_lp_lockdrop::config::authorize_self;
use osmo_lp_lockdrop::error::ContractError;
use osmo_lp_lockdrop::liquidity::{eject_liquidity, extract_pool_id_from_denom, seed_liquidity, Asset, PoolCoin};
use osmo_lp_lockdrop::numeric::parse_u64;

fn s(x: &str) -> String {
    x.to_string()
}

fn asset(d: &str, a: u128) -> Asset {
    Asset { denom: s(d), amount: a }
}

fn coin(d: &str, a: &str) -> PoolCoin {
    PoolCoin { denom: s(d), amount: s(a) }
}

#[test]
fn pool_id_is_read_from_denom() {
    assert_eq!(extract_pool_id_from_denom("gamm/pool/12"), Ok(12));
    assert_eq!(extract_pool_id_from_denom("gamm/pool/+5"), Ok(5));
    assert_eq!(extract_pool_id_from_denom("gamm/pool/18446744073709551615"), Ok(u64::MAX));
    assert_eq!(extract_pool_id_from_denom("gamm/pool/18446744073709551616"), Err(ContractError::InvalidDenom));
    assert_eq!(extract_pool_id_from_denom("gamm/pool"), Err(ContractError::InvalidDenom));
    assert_eq!(extract_pool_id_from_denom("gamm/pool/1/2"), Err(ContractError::InvalidDenom));
    assert_eq!(extract_pool_id_from_denom("gamm/pool/x1"), Err(ContractError::InvalidDenom));
    assert_eq!(extract_pool_id_from_denom("gamm/pool/"), Err(ContractError::InvalidDenom));
    assert_eq!(extract_pool_id_from_denom("gamm/pool/-1"), Err(ContractError::InvalidDenom));
    assert_eq!(extract_pool_id_from_denom("//7"), Ok(7));
}

#[test]
fn decimal_parsing() {
    assert_eq!(parse_u64("0"), Some(0));
    assert_eq!(parse_u64("007"), Some(7));
    assert_eq!(parse_u64("+"), None);
    assert_eq!(parse_u64(""), None);
    assert_eq!(parse_u64("1 "), None);
}

#[test]
fn seed_splits_evenly_and_refunds_remainder() {
    let assets = vec![asset("uatom", 1000), asset("ujuno", 2000), asset("ustars", 3000)];
    let plan = seed_liquidity(&assets, 100, &s("uosmo"), 100_000_000).unwrap();
    assert_eq!(plan.per_pool_seed, 33);
    assert_eq!(plan.remainder, 1);
    assert_eq!(plan.per_pool_seed * 3 + plan.remainder, 100);
    assert_eq!(plan.pools.len(), 3);
    for (p, a) in plan.pools.iter().zip(assets.iter()) {
        assert_eq!(p.reserve, *a);
        assert_eq!(p.seed_amount, 33);
    }
}

#[test]
fn seed_holds_back_pool_fees_from_fee_denom() {
    let assets = vec![asset("uatom", 1000), asset("uosmo", 500_000_000), asset("ujuno", 10)];
    let plan = seed_liquidity(&assets, 9, &s("uosmo"), 100_000_000).unwrap();
    assert_eq!(plan.pools[0].reserve, asset("uatom", 1000));
    // two pools (this one and the next) are still to be paid for at the second entry
    assert_eq!(plan.pools[1].reserve, asset("uosmo", 300_000_000));
    assert_eq!(plan.pools[2].reserve, asset("ujuno", 10));
    assert_eq!(plan.remainder, 0);
}

#[test]
fn seed_fails_when_fee_denom_cannot_pay() {
    let assets = vec![asset("uosmo", 150_000_000), asset("uatom", 1)];
    assert_eq!(seed_liquidity(&assets, 10, &s("uosmo"), 100_000_000), Err(ContractError::Overflow));
    let assets = vec![asset("uatom", 1)];
    assert_eq!(seed_liquidity(&assets, 10, &s("uosmo"), u128::MAX).map(|p| p.remainder), Ok(0));
    let two = vec![asset("uatom", 1), asset("ujuno", 1)];
    assert_eq!(seed_liquidity(&two, 10, &s("uosmo"), u128::MAX), Err(ContractError::Overflow));
}

#[test]
fn seed_with_no_assets_refunds_everything() {
    let plan = seed_liquidity(&vec![], 100, &s("uosmo"), 100_000_000).unwrap();
    assert!(plan.pools.is_empty());
    assert_eq!(plan.remainder, 100);
}

#[test]
fn eject_is_proportional() {
    let reserves = vec![coin("A", "1000"), coin("B", "2000")];
    let plan = eject_liquidity("gamm/pool/7", 50, &reserves, &Some(s("500"))).unwrap();
    assert_eq!(plan.pool_id, 7);
    assert_eq!(plan.share_in_amount, 50);
    assert_eq!(plan.token_out_mins, vec![asset("A", 100), asset("B", 200)]);
}

#[test]
fn eject_uses_wide_intermediate_product() {
    let max = u128::MAX.to_string();
    let reserves = vec![coin("A", &max), coin("B", "+7")];
    let plan = eject_liquidity("gamm/pool/1", 2, &reserves, &Some(s("4"))).unwrap();
    assert_eq!(plan.token_out_mins, vec![asset("A", u128::MAX / 2), asset("B", 3)]);
    let over = eject_liquidity("gamm/pool/1", 8, &reserves, &Some(s("4")));
    assert_eq!(over.map(|p| p.pool_id), Err(ContractError::Overflow));
}

#[test]
fn eject_reports_unresolved_pool_state() {
    let reserves = vec![coin("A", "1000")];
    assert_eq!(eject_liquidity("gamm/pool/7", 1, &reserves, &None).map(|p| p.pool_id), Err(ContractError::PoolStateError));
    assert_eq!(eject_liquidity("gamm/pool/7", 1, &reserves, &Some(s("0"))).map(|p| p.pool_id), Err(ContractError::PoolStateError));
    assert_eq!(eject_liquidity("gamm/pool/7", 1, &reserves, &Some(s("ten"))).map(|p| p.pool_id), Err(ContractError::PoolStateError));
    let bad = vec![coin("A", "1000"), coin("B", "1e3")];
    assert_eq!(eject_liquidity("gamm/pool/7", 1, &bad, &Some(s("10"))).map(|p| p.pool_id), Err(ContractError::PoolStateError));
    assert_eq!(eject_liquidity("gamm/7", 1, &reserves, &Some(s("10"))).map(|p| p.pool_id), Err(ContractError::InvalidDenom));
}

#[test]
fn self_scheduled_steps_need_the_contract_as_sender() {
    assert_eq!(authorize_self(&s("contract"), &s("contract")), Ok(()));
    assert_eq!(authorize_self(&s("alice"), &s("contract")), Err(ContractError::Unauthorized));
}
