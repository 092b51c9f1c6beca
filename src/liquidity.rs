//! Planning of liquidity moves: seeding new two-asset pools from idle balances,
//! and exiting a pool in proportion to the pool shares held.
use vstd::prelude::*;
use crate::error::ContractError;
use crate::numeric::{u64_of, u128_of, ratio_of, parse_u64, parse_u128, multiply_ratio};

verus! {

/// What creating one pool costs, in the network's fee denom.
pub const POOL_CREATION_FEE: u128 = 100_000_000;

/// Weight of each of the two assets of a seeded pool; the two are equal.
pub const POOL_WEIGHT: u64 = 100;

/// Swap fee of a seeded pool, in units of 10^-18 (0.3%).
pub const SWAP_FEE: u128 = 3_000_000_000_000_000;

/// Exit fee of a seeded pool.
pub const EXIT_FEE: u128 = 0;

/// An amount of one denom.
#[derive(Debug, Clone, PartialEq, Eq)]
pub struct Asset {
    pub denom: String,
    pub amount: u128,
}

/// A reserve entry as a pool reports it, with its amount as a decimal string.
#[derive(Debug, Clone, PartialEq, Eq)]
pub struct PoolCoin {
    pub denom: String,
    pub amount: String,
}

/// One pool to create: a held asset paired, at equal weight, with the seed denom.
#[derive(Debug, Clone, PartialEq, Eq)]
pub struct PoolPlan {
    pub reserve: Asset,
    pub seed_amount: u128,
}

/// The pools to create from a seed payment, and what of the payment goes back.
#[derive(Debug, Clone, PartialEq, Eq)]
pub struct SeedPlan {
    pub pools: Vec<PoolPlan>,
    pub per_pool_seed: u128,
    pub remainder: u128,
}

/// An exit from a pool: all the held shares in, at least `token_out_mins` out.
#[derive(Debug, Clone, PartialEq, Eq)]
pub struct ExitPlan {
    pub pool_id: u64,
    pub share_in_amount: u128,
    pub token_out_mins: Vec<Asset>,
}

pub open spec fn slash_count(s: Seq<char>) -> nat
    decreases s.len(),
{
    if s.len() == 0 {
        0
    } else {
        slash_count(s.drop_last()) + if s.last() == '/' { 1nat } else { 0nat }
    }
}

/// Where the text after the last `/` begins (0 when there is none).
pub open spec fn last_segment_start(s: Seq<char>) -> int
    decreases s.len(),
{
    if s.len() == 0 {
        0
    } else if s.last() == '/' {
        s.len() as int
    } else {
        last_segment_start(s.drop_last())
    }
}

/// The pool id that a pool-share denom names: the denom is three `/`-separated
/// segments and the last one is an unsigned 64-bit decimal.
pub open spec fn pool_id_of(denom: Seq<char>) -> Option<u64> {
    if slash_count(denom) == 2 {
        u64_of(denom.subrange(last_segment_start(denom), denom.len() as int))
    } else {
        None
    }
}

proof fn lemma_last_segment_start_bounds(s: Seq<char>)
    ensures
        0 <= last_segment_start(s) <= s.len(),
    decreases s.len(),
{
    if s.len() > 0 {
        lemma_last_segment_start_bounds(s.drop_last());
    }
}

/// Reads the pool id out of a pool-share denom such as `gamm/pool/7`.
pub fn extract_pool_id_from_denom(denom: &str) -> (r: Result<u64, ContractError>)
    ensures
        r == (match pool_id_of(denom@) {
            Some(id) => Ok(id),
            None => Err(ContractError::InvalidDenom),
        }),
{
    let n = denom.unicode_len();
    let mut i: usize = 0;
    let mut slashes: usize = 0;
    let mut seg_start: usize = 0;
    while i < n
        invariant
            denom@.len() == n,
            i <= n,
            slashes == slash_count(denom@.subrange(0, i as int)),
            seg_start == last_segment_start(denom@.subrange(0, i as int)),
            slashes <= i,
        decreases n - i,
    {
        let ghost pre = denom@.subrange(0, i as int + 1);
        assert(pre.drop_last() =~= denom@.subrange(0, i as int));
        if denom.get_char(i) == '/' {
            slashes = slashes + 1;
            seg_start = i + 1;
        }
        i = i + 1;
    }
    assert(denom@.subrange(0, n as int) =~= denom@);
    if slashes != 2 {
        return Err(ContractError::InvalidDenom);
    }
    proof {
        lemma_last_segment_start_bounds(denom@);
    }
    let last = denom.substring_char(seg_start, n);
    match parse_u64(last) {
        Some(id) => Ok(id),
        None => Err(ContractError::InvalidDenom),
    }
}

/// The fee obligation still open when the pool at `index` of `count` is formed:
/// one fee for that pool and for each pool after it.
pub open spec fn open_obligation(index: int, count: int, fee: u128) -> int {
    (count - index) * fee
}

/// What the held asset at `index` contributes to its pool: all of it, less the
/// open fee obligation where it is the fee denom.
pub open spec fn contribution(a: Asset, index: int, count: int, fee_denom: Seq<char>, fee: u128) -> int {
    if a.denom@ == fee_denom {
        a.amount - open_obligation(index, count, fee)
    } else {
        a.amount as int
    }
}

/// Whether every held asset can bear its share of the fee obligation.
pub open spec fn fees_covered(assets: Seq<Asset>, fee_denom: Seq<char>, fee: u128) -> bool {
    &&& assets.len() * fee <= u128::MAX
    &&& forall|i: int|
        0 <= i < assets.len() ==> contribution(#[trigger] assets[i], i, assets.len() as int, fee_denom, fee) >= 0
}

/// Plans one new pool per held asset, each paired with an equal part of the seed
/// payment; what does not divide evenly is handed back. The fee for creating all
/// the pools is held back up front from the fee denom's balance.
pub fn seed_liquidity(assets: &Vec<Asset>, seed_amount: u128, fee_denom: &String, pool_creation_fee: u128) -> (r: Result<SeedPlan, ContractError>)
    ensures
        fees_covered(assets@, fee_denom@, pool_creation_fee) <==> r is Ok,
        !fees_covered(assets@, fee_denom@, pool_creation_fee) ==> r == Err::<SeedPlan, ContractError>(ContractError::Overflow),
        r matches Ok(plan) ==> {
            let n = assets@.len() as int;
            &&& plan.per_pool_seed == (if n == 0 { 0 } else { seed_amount as int / n })
            &&& plan.remainder == (if n == 0 { seed_amount as int } else { seed_amount as int % n })
            &&& plan.per_pool_seed * n + plan.remainder == seed_amount
            &&& plan.pools@.len() == n
            &&& forall|i: int| 0 <= i < n ==> {
                &&& (#[trigger] plan.pools@[i]).reserve.denom@ == assets@[i].denom@
                &&& plan.pools@[i].reserve.amount == contribution(assets@[i], i, n, fee_denom@, pool_creation_fee)
                &&& plan.pools@[i].seed_amount == plan.per_pool_seed
            }
        },
{
    let n = assets.len();
    if n == 0 {
        return Ok(SeedPlan { pools: Vec::new(), per_pool_seed: 0, remainder: seed_amount });
    }
    let count = n as u128;
    let per_pool_seed = seed_amount / count;
    let remainder = seed_amount % count;
    assert(per_pool_seed * n + remainder == seed_amount) by (nonlinear_arith)
        requires
            per_pool_seed == seed_amount / count,
            remainder == seed_amount % count,
            count == n,
            n > 0,
    ;
    let mut obligation: u128 = match count.checked_mul(pool_creation_fee) {
        Some(v) => v,
        None => {
            return Err(ContractError::Overflow);
        },
    };
    let mut pools: Vec<PoolPlan> = Vec::new();
    let mut i: usize = 0;
    while i < n
        invariant
            n == assets@.len(),
            count == n,
            i <= n,
            n * pool_creation_fee <= u128::MAX,
            obligation == open_obligation(i as int, n as int, pool_creation_fee),
            pools@.len() == i,
            forall|k: int| 0 <= k < i ==> contribution(#[trigger] assets@[k], k, n as int, fee_denom@, pool_creation_fee) >= 0,
            forall|k: int| 0 <= k < i ==> {
                &&& (#[trigger] pools@[k]).reserve.denom@ == assets@[k].denom@
                &&& pools@[k].reserve.amount == contribution(assets@[k], k, n as int, fee_denom@, pool_creation_fee)
                &&& pools@[k].seed_amount == per_pool_seed
            },
        decreases n - i,
    {
        let asset = &assets[i];
        assert(obligation >= pool_creation_fee) by (nonlinear_arith)
            requires
                obligation == (n - i) * pool_creation_fee,
                i < n,
        ;
        let amount = if asset.denom == *fee_denom {
            if asset.amount < obligation {
                assert(!fees_covered(assets@, fee_denom@, pool_creation_fee)) by {
                    assert(contribution(assets@[i as int], i as int, n as int, fee_denom@, pool_creation_fee) < 0);
                }
                return Err(ContractError::Overflow);
            }
            asset.amount - obligation
        } else {
            asset.amount
        };
        assert((n - (i + 1)) * pool_creation_fee == (n - i) * pool_creation_fee - pool_creation_fee) by (nonlinear_arith);
        obligation = obligation - pool_creation_fee;
        pools.push(PoolPlan {
            reserve: Asset { denom: asset.denom.clone(), amount },
            seed_amount: per_pool_seed,
        });
        i = i + 1;
    }
    assert(obligation == 0) by (nonlinear_arith)
        requires
            obligation == (n - i) * pool_creation_fee,
            i == n,
    ;
    Ok(SeedPlan { pools, per_pool_seed, remainder })
}

/// The total shares of a pool, when the pool reports a readable, non-zero amount.
pub open spec fn pool_total_of(total_shares: Option<String>) -> Option<u128> {
    match total_shares {
        Some(t) => match u128_of(t@) {
            Some(v) => if v > 0 { Some(v) } else { None },
            None => None,
        },
        None => None,
    }
}

/// Plans an exit of all `held_shares` from the pool that `gamm_denom` names,
/// asking of each reserve at least `floor(reserve * held_shares / total_shares)`.
pub fn eject_liquidity(gamm_denom: &str, held_shares: u128, reserves: &Vec<PoolCoin>, total_shares: &Option<String>) -> (r: Result<ExitPlan, ContractError>)
    ensures
        pool_id_of(gamm_denom@) is None ==> r == Err::<ExitPlan, ContractError>(ContractError::InvalidDenom),
        pool_id_of(gamm_denom@) is Some && (pool_total_of(*total_shares) is None
            || exists|i: int| 0 <= i < reserves@.len() && u128_of((#[trigger] reserves@[i]).amount@) is None)
            ==> r == Err::<ExitPlan, ContractError>(ContractError::PoolStateError),
        pool_id_of(gamm_denom@) is Some && pool_total_of(*total_shares) is Some
            && (forall|i: int| 0 <= i < reserves@.len() ==> u128_of((#[trigger] reserves@[i]).amount@) is Some)
            && (exists|i: int| 0 <= i < reserves@.len()
                && ratio_of(u128_of((#[trigger] reserves@[i]).amount@).unwrap(), held_shares, pool_total_of(*total_shares).unwrap()) is None)
            ==> r == Err::<ExitPlan, ContractError>(ContractError::Overflow),
        r is Ok <==> {
            &&& pool_id_of(gamm_denom@) is Some
            &&& pool_total_of(*total_shares) is Some
            &&& forall|i: int| 0 <= i < reserves@.len() ==> {
                &&& u128_of((#[trigger] reserves@[i]).amount@) is Some
                &&& ratio_of(u128_of(reserves@[i].amount@).unwrap(), held_shares, pool_total_of(*total_shares).unwrap()) is Some
            }
        },
        r matches Ok(plan) ==> {
            &&& Some(plan.pool_id) == pool_id_of(gamm_denom@)
            &&& plan.share_in_amount == held_shares
            &&& plan.token_out_mins@.len() == reserves@.len()
            &&& forall|i: int| 0 <= i < reserves@.len() ==> {
                &&& (#[trigger] plan.token_out_mins@[i]).denom@ == reserves@[i].denom@
                &&& Some(plan.token_out_mins@[i].amount) == ratio_of(
                    u128_of(reserves@[i].amount@).unwrap(), held_shares, pool_total_of(*total_shares).unwrap())
            }
        },
{
    let pool_id = match extract_pool_id_from_denom(gamm_denom) {
        Ok(id) => id,
        Err(e) => {
            return Err(e);
        },
    };
    let total: u128 = match total_shares {
        Some(t) => match parse_u128(t.as_str()) {
            Some(v) => v,
            None => {
                return Err(ContractError::PoolStateError);
            },
        },
        None => {
            return Err(ContractError::PoolStateError);
        },
    };
    if total == 0 {
        return Err(ContractError::PoolStateError);
    }
    let n = reserves.len();
    let mut amounts: Vec<u128> = Vec::new();
    let mut i: usize = 0;
    while i < n
        invariant
            n == reserves@.len(),
            pool_id_of(gamm_denom@) == Some(pool_id),
            i <= n,
            amounts@.len() == i,
            forall|k: int| 0 <= k < i ==> u128_of((#[trigger] reserves@[k]).amount@) == Some(amounts@[k]),
        decreases n - i,
    {
        match parse_u128(reserves[i].amount.as_str()) {
            Some(v) => amounts.push(v),
            None => {
                return Err(ContractError::PoolStateError);
            },
        }
        i = i + 1;
    }
    let mut token_out_mins: Vec<Asset> = Vec::new();
    let mut j: usize = 0;
    while j < n
        invariant
            n == reserves@.len(),
            pool_id_of(gamm_denom@) == Some(pool_id),
            amounts@.len() == n,
            forall|k: int| 0 <= k < n ==> u128_of((#[trigger] reserves@[k]).amount@) == Some(amounts@[k]),
            pool_total_of(*total_shares) == Some(total),
            j <= n,
            token_out_mins@.len() == j,
            forall|k: int| 0 <= k < j ==> ratio_of(amounts@[k], held_shares, total) is Some,
            forall|k: int| 0 <= k < j ==> {
                &&& (#[trigger] token_out_mins@[k]).denom@ == reserves@[k].denom@
                &&& Some(token_out_mins@[k].amount) == ratio_of(amounts@[k], held_shares, total)
            },
        decreases n - j,
    {
        let out = match multiply_ratio(amounts[j], held_shares, total) {
            Some(v) => v,
            None => {
                assert(u128_of(reserves@[j as int].amount@) == Some(amounts@[j as int]));
                return Err(ContractError::Overflow);
            },
        };
        token_out_mins.push(Asset { denom: reserves[j].denom.clone(), amount: out });
        j = j + 1;
    }
    Ok(ExitPlan { pool_id, share_in_amount: held_shares, token_out_mins })
}

} // verus!
