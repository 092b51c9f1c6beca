//! The staking contract's state and the operations on it: stake, unstake,
//! claim, fund, configuration, hooks, reward contracts, and the queries.
use vstd::prelude::*;
use crate::error::ContractError;
use crate::config::{BlockInfo, Config, Duration, Expiration, expiration_after, valid_duration, validate_duration};
use crate::ledger::{Ledger, StakerBalance, after_bound};
use crate::order::addr_lt;
use crate::claims::{Claim, Claims, MAX_CLAIMS, unmatured};
use crate::hooks::{HookMsg, Hooks, StakeChange};
use crate::rewards::{Denom, RewardContracts};

verus! {

/// What a stake issued, and whom to tell.
#[derive(Debug, Clone, PartialEq, Eq)]
pub struct StakeResponse {
    pub shares: u128,
    pub hook_msgs: Vec<HookMsg>,
}

/// What an unstake released: paid at once when `release_at` is none, else queued
/// as a claim until then.
#[derive(Debug, Clone, PartialEq, Eq)]
pub struct UnstakeResponse {
    pub value: u128,
    pub release_at: Option<Expiration>,
    pub hook_msgs: Vec<HookMsg>,
}

/// Where the rewards of a denom go.
#[derive(Debug, Clone, PartialEq, Eq)]
pub struct FundTarget {
    pub contract: String,
    pub denom: String,
}

/// A holder's shares as of a height.
#[derive(Debug, Clone, Copy, PartialEq, Eq, Structural)]
pub struct BalanceAtHeight {
    pub balance: u128,
    pub height: u64,
}

/// The whole state of the staking contract.
#[derive(Debug, Clone, PartialEq, Eq)]
pub struct State {
    pub config: Config,
    pub ledger: Ledger,
    pub claims: Claims,
    pub hooks: Hooks,
    pub reward_contracts: RewardContracts,
}

/// The denoms of a balance list other than `staked`, in their order.
pub open spec fn distributable(denoms: Seq<String>, staked: Seq<char>) -> Seq<String>
    decreases denoms.len(),
{
    if denoms.len() == 0 {
        Seq::empty()
    } else if denoms.last()@ == staked {
        distributable(denoms.drop_last(), staked)
    } else {
        distributable(denoms.drop_last(), staked).push(denoms.last())
    }
}

/// With a cooldown configured, a holder with fewer than the maximum of pending
/// claims may queue one more; a holder at the maximum is refused for too many
/// claims (given a withdrawal the ledger allows and a release point that fits).
pub proof fn lemma_claim_cap(s: State, sender: Seq<char>, amount: u128, block: BlockInfo)
    requires
        s.config.unstaking_duration is Some,
        s.ledger.withdraw_outcome(sender, amount) is Ok,
        expiration_after(s.config.unstaking_duration.unwrap(), block) is Some,
    ensures
        s.claims.of(sender).len() < MAX_CLAIMS ==> s.unstake_outcome(sender, amount, block) is Ok,
        s.claims.of(sender).len() >= MAX_CLAIMS ==> s.unstake_outcome(sender, amount, block)
            == Err::<Option<Expiration>, ContractError>(ContractError::TooManyClaims),
{
}

/// Sets the contract up: validates the cooldown, and writes a total of zero
/// shares at `height` and a zero balance.
pub fn instantiate(
    owner: Option<String>,
    manager: Option<String>,
    denom: String,
    unstaking_duration: Option<Duration>,
    reward_contract_code_id: u64,
    height: u64,
) -> (r: Result<State, ContractError>)
    ensures
        valid_duration(unstaking_duration) <==> r is Ok,
        r is Err ==> r == Err::<State, ContractError>(ContractError::InvalidUnstakingDuration),
        r matches Ok(s) ==> {
            &&& s.wf()
            &&& s.config == (Config { owner, manager, denom, unstaking_duration, reward_contract_code_id })
            &&& s.ledger.balance == 0
            &&& s.ledger.total_shares() == 0
            &&& s.ledger.height == height
            &&& forall|a: Seq<char>| #[trigger] s.ledger.shares_of(a) == 0
            &&& forall|a: Seq<char>| #[trigger] s.claims.of(a).len() == 0
            &&& s.hooks@.len() == 0
            &&& s.reward_contracts@ == Map::<Seq<char>, Seq<char>>::empty()
        },
{
    validate_duration(unstaking_duration)?;
    let config = Config { owner, manager, denom, unstaking_duration, reward_contract_code_id };
    let s = State {
        config,
        ledger: Ledger::new(height),
        claims: Claims::new(),
        hooks: Hooks::new(),
        reward_contracts: RewardContracts::new(),
    };
    Ok(s)
}

impl State {
    pub open spec fn wf(&self) -> bool {
        &&& self.ledger.wf()
        &&& self.hooks.wf()
        &&& self.reward_contracts.wf()
    }

    /// What an unstake by `sender` in `block` leads to: the release point of the
    /// claim it queues (none when paid at once), or why it fails.
    pub open spec fn unstake_outcome(&self, sender: Seq<char>, amount: u128, block: BlockInfo) -> Result<Option<Expiration>, ContractError> {
        match self.ledger.withdraw_outcome(sender, amount) {
            Err(e) => Err(e),
            Ok(_) => match self.config.unstaking_duration {
                None => Ok(None),
                Some(d) => if self.claims.of(sender).len() >= MAX_CLAIMS {
                    Err(ContractError::TooManyClaims)
                } else {
                    match expiration_after(d, block) {
                        Some(e) => Ok(Some(e)),
                        None => Err(ContractError::Overflow),
                    }
                },
            },
        }
    }

    /// Stakes `amount` (a payment already checked to be of the staked denom) for `sender`.
    pub fn execute_stake(&mut self, sender: &String, amount: u128, height: u64) -> (r: Result<StakeResponse, ContractError>)
        requires
            old(self).wf(),
            old(self).ledger.height <= height,
        ensures
            final(self).wf(),
            r is Ok <==> old(self).ledger.deposit_outcome(sender@, amount) is Ok,
            r matches Err(e) ==> old(self).ledger.deposit_outcome(sender@, amount) == Err::<u128, ContractError>(e)
                && *final(self) == *old(self),
            r matches Ok(resp) ==> {
                &&& old(self).ledger.deposit_outcome(sender@, amount) == Ok::<u128, ContractError>(resp.shares)
                &&& old(self).ledger.deposit_effect(&final(self).ledger, sender@, amount, height, resp.shares)
                &&& final(self).config == old(self).config
                &&& final(self).claims == old(self).claims
                &&& final(self).hooks == old(self).hooks
                &&& final(self).reward_contracts == old(self).reward_contracts
                &&& resp.hook_msgs@.len() == old(self).hooks@.len()
                &&& forall|i: int| 0 <= i < resp.hook_msgs@.len() ==> {
                    &&& (#[trigger] resp.hook_msgs@[i]).hook@ == old(self).hooks@[i]
                    &&& resp.hook_msgs@[i].change == StakeChange::Stake
                    &&& resp.hook_msgs@[i].addr@ == sender@
                    &&& resp.hook_msgs@[i].amount == resp.shares
                }
            },
    {
        let shares = self.ledger.deposit(sender, amount, height)?;
        let hook_msgs = self.hooks.messages(StakeChange::Stake, sender, shares);
        Ok(StakeResponse { shares, hook_msgs })
    }

    /// Unstakes `amount` shares of `sender`: their value is paid at once when no
    /// cooldown is configured, else queued as a claim that matures after it.
    pub fn execute_unstake(&mut self, sender: &String, amount: u128, block: &BlockInfo) -> (r: Result<UnstakeResponse, ContractError>)
        requires
            old(self).wf(),
            old(self).ledger.height <= block.height,
        ensures
            final(self).wf(),
            r is Ok <==> old(self).unstake_outcome(sender@, amount, *block) is Ok,
            r matches Err(e) ==> old(self).unstake_outcome(sender@, amount, *block) == Err::<Option<Expiration>, ContractError>(e)
                && *final(self) == *old(self),
            r matches Ok(resp) ==> {
                &&& old(self).unstake_outcome(sender@, amount, *block) == Ok::<Option<Expiration>, ContractError>(resp.release_at)
                &&& old(self).ledger.withdraw_outcome(sender@, amount) == Ok::<u128, ContractError>(resp.value)
                &&& old(self).ledger.withdraw_effect(&final(self).ledger, sender@, amount, block.height, resp.value)
                &&& final(self).config == old(self).config
                &&& final(self).hooks == old(self).hooks
                &&& final(self).reward_contracts == old(self).reward_contracts
                &&& match resp.release_at {
                    None => final(self).claims == old(self).claims,
                    Some(e) => {
                        &&& final(self).claims.of(sender@) == old(self).claims.of(sender@).push(Claim { amount: resp.value, release_at: e })
                        &&& forall|a: Seq<char>| a != sender@ ==> #[trigger] final(self).claims.of(a) == old(self).claims.of(a)
                    },
                }
                &&& resp.hook_msgs@.len() == old(self).hooks@.len()
                &&& forall|i: int| 0 <= i < resp.hook_msgs@.len() ==> {
                    &&& (#[trigger] resp.hook_msgs@[i]).hook@ == old(self).hooks@[i]
                    &&& resp.hook_msgs@[i].change == StakeChange::Unstake
                    &&& resp.hook_msgs@[i].addr@ == sender@
                    &&& resp.hook_msgs@[i].amount == amount
                }
            },
    {
        let value = self.ledger.preview_withdraw(sender, amount)?;
        let release_at: Option<Expiration> = match self.config.unstaking_duration {
            None => None,
            Some(d) => {
                if self.claims.count(sender) >= MAX_CLAIMS {
                    return Err(ContractError::TooManyClaims);
                }
                Some(d.after(block)?)
            },
        };
        let released = self.ledger.withdraw(sender, amount, block.height);
        assert(released == Ok::<u128, ContractError>(value));
        if let Some(e) = release_at {
            self.claims.create(sender, value, e);
        }
        let hook_msgs = self.hooks.messages(StakeChange::Unstake, sender, amount);
        Ok(UnstakeResponse { value, release_at, hook_msgs })
    }

    /// Settles every matured claim of `sender` and returns the sum to pay out.
    pub fn execute_claim(&mut self, sender: &String, block: &BlockInfo) -> (r: Result<u128, ContractError>)
        requires
            old(self).wf(),
        ensures
            final(self).wf(),
            r == old(self).claims.settle_outcome(sender@, *block),
            r is Err ==> *final(self) == *old(self),
            r is Ok ==> {
                &&& final(self).claims.of(sender@) == unmatured(old(self).claims.of(sender@), *block)
                &&& forall|a: Seq<char>| a != sender@ ==> #[trigger] final(self).claims.of(a) == old(self).claims.of(a)
                &&& final(self).config == old(self).config
                &&& final(self).ledger == old(self).ledger
                &&& final(self).hooks == old(self).hooks
                &&& final(self).reward_contracts == old(self).reward_contracts
            },
    {
        self.claims.settle(sender, block)
    }

    /// Adds `amount` (a payment already checked to be of the staked denom) to the
    /// balance, raising the value of every share.
    pub fn execute_fund(&mut self, amount: u128) -> (r: Result<(), ContractError>)
        requires
            old(self).wf(),
        ensures
            final(self).wf(),
            old(self).ledger.balance + amount <= u128::MAX <==> r is Ok,
            r is Err ==> r == Err::<(), ContractError>(ContractError::Overflow) && *final(self) == *old(self),
            r is Ok ==> *final(self) == (State {
                ledger: Ledger { balance: (old(self).ledger.balance + amount) as u128, ..old(self).ledger },
                ..*old(self)
            }),
    {
        self.ledger.fund(amount)
    }

    /// Replaces owner, manager and cooldown; see `Config::update`.
    pub fn execute_update_config(
        &mut self,
        sender: &String,
        new_owner: Option<String>,
        new_manager: Option<String>,
        duration: Option<Duration>,
    ) -> (r: Result<(), ContractError>)
        requires
            old(self).wf(),
        ensures
            final(self).wf(),
            r == old(self).config.update_outcome(sender@, new_owner, duration),
            r is Err ==> *final(self) == *old(self),
            r is Ok ==> *final(self) == (State {
                config: Config {
                    owner: new_owner,
                    manager: new_manager,
                    unstaking_duration: duration,
                    ..old(self).config
                },
                ..*old(self)
            }),
    {
        self.config.update(sender, new_owner, new_manager, duration)
    }

    /// Registers a hook; only the owner or the manager may.
    pub fn execute_add_hook(&mut self, sender: &String, addr: String) -> (r: Result<(), ContractError>)
        requires
            old(self).wf(),
        ensures
            final(self).wf(),
            r == (if !old(self).config.is_admin(sender@) {
                Err(ContractError::Unauthorized)
            } else if old(self).hooks@.contains(addr@) {
                Err(ContractError::HookAlreadyRegistered)
            } else {
                Ok(())
            }),
            r is Err ==> *final(self) == *old(self),
            r is Ok ==> final(self).hooks@ == old(self).hooks@.push(addr@)
                && *final(self) == (State { hooks: final(self).hooks, ..*old(self) }),
    {
        self.config.authorize_admin(sender)?;
        self.hooks.add_hook(addr)
    }

    /// Unregisters a hook; only the owner or the manager may.
    pub fn execute_remove_hook(&mut self, sender: &String, addr: &String) -> (r: Result<(), ContractError>)
        requires
            old(self).wf(),
        ensures
            final(self).wf(),
            r == (if !old(self).config.is_admin(sender@) {
                Err(ContractError::Unauthorized)
            } else if !old(self).hooks@.contains(addr@) {
                Err(ContractError::HookNotRegistered)
            } else {
                Ok(())
            }),
            r is Err ==> *final(self) == *old(self),
            r is Ok ==> {
                &&& exists|i: int| 0 <= i < old(self).hooks@.len() && old(self).hooks@[i] == addr@
                    && final(self).hooks@ == old(self).hooks@.remove(i)
                &&& *final(self) == (State { hooks: final(self).hooks, ..*old(self) })
            },
    {
        self.config.authorize_admin(sender)?;
        self.hooks.remove_hook(addr)
    }

    /// Records the reward contract that was instantiated for a reward token; only a
    /// native denom is accepted. Returns the denom, whose rewards are to be funded next.
    pub fn reply(&mut self, reward_token: &Denom, contract_addr: String) -> (r: Result<String, ContractError>)
        requires
            old(self).wf(),
        ensures
            final(self).wf(),
            r is Ok <==> reward_token is Native,
            r is Err ==> r == Err::<String, ContractError>(ContractError::InvalidDenom) && *final(self) == *old(self),
            r matches Ok(d) ==> {
                &&& reward_token == Denom::Native(d)
                &&& final(self).reward_contracts@ == old(self).reward_contracts@.insert(d@, contract_addr@)
                &&& *final(self) == (State { reward_contracts: final(self).reward_contracts, ..*old(self) })
            },
    {
        match reward_token {
            Denom::Native(d) => {
                self.reward_contracts.save(d.clone(), contract_addr);
                Ok(d.clone())
            },
            Denom::Cw20(_) => Err(ContractError::InvalidDenom),
        }
    }

    /// Where to send the held balance of `denom`: the reward contract registered for
    /// it, whose own reported token must be a native denom.
    pub fn execute_fund_rewards_contract(&self, denom: &String, reported_token: &Denom) -> (r: Result<FundTarget, ContractError>)
        requires
            self.wf(),
        ensures
            !self.reward_contracts@.contains_key(denom@) ==> r == Err::<FundTarget, ContractError>(ContractError::RewardContractNotFound),
            self.reward_contracts@.contains_key(denom@) && reported_token is Cw20
                ==> r == Err::<FundTarget, ContractError>(ContractError::InvalidDenom),
            r is Ok <==> self.reward_contracts@.contains_key(denom@) && reported_token is Native,
            r matches Ok(t) ==> t.contract@ == self.reward_contracts@[denom@] && *reported_token == Denom::Native(t.denom),
    {
        let contract = match self.reward_contracts.get(denom) {
            Some(c) => c,
            None => {
                return Err(ContractError::RewardContractNotFound);
            },
        };
        match reported_token {
            Denom::Native(d) => Ok(FundTarget { contract, denom: d.clone() }),
            Denom::Cw20(_) => Err(ContractError::InvalidDenom),
        }
    }

    /// The denoms held that are not the staked denom, each to be handed to its own
    /// reward contract.
    pub fn execute_distribute_all_tokens(&self, held_denoms: &Vec<String>) -> (r: Vec<String>)
        ensures
            r@ == distributable(held_denoms@, self.config.denom@),
    {
        let mut out: Vec<String> = Vec::new();
        let mut i: usize = 0;
        while i < held_denoms.len()
            invariant
                i <= held_denoms@.len(),
                out@ == distributable(held_denoms@.subrange(0, i as int), self.config.denom@),
            decreases held_denoms@.len() - i,
        {
            assert(held_denoms@.subrange(0, i + 1).drop_last() =~= held_denoms@.subrange(0, i as int));
            if held_denoms[i] != self.config.denom {
                out.push(held_denoms[i].clone());
            }
            i = i + 1;
        }
        assert(held_denoms@.subrange(0, i as int) =~= held_denoms@);
        out
    }

    /// Whether a reward contract must be instantiated for `denom`: yes when none is
    /// registered yet. The staked denom itself is never distributed.
    pub fn execute_distribute_token(&self, denom: &String) -> (r: Result<bool, ContractError>)
        requires
            self.wf(),
        ensures
            r == (if denom@ == self.config.denom@ {
                Err(ContractError::Unauthorized)
            } else {
                Ok(!self.reward_contracts@.contains_key(denom@))
            }),
    {
        if *denom == self.config.denom {
            return Err(ContractError::Unauthorized);
        }
        Ok(self.reward_contracts.get(denom).is_none())
    }

    /// The first phase of a rebalance may be started by the manager alone.
    pub fn execute_eject_and_seed_liquidity(&self, sender: &String) -> (r: Result<(), ContractError>)
        ensures
            r == (if self.config.is_manager(sender@) {
                Ok(())
            } else {
                Err(ContractError::Unauthorized)
            }),
    {
        self.config.authorize_manager(sender)
    }

    /// `address`'s shares as of `height`, or as of `current` when none is given.
    pub fn query_staked_balance_at_height(&self, address: &String, height: Option<u64>, current: u64) -> (r: BalanceAtHeight)
        requires
            self.wf(),
        ensures
            r.height == (match height {
                Some(h) => h,
                None => current,
            }),
            r.balance == self.ledger.shares_of_at(address@, r.height),
    {
        let h = match height {
            Some(h) => h,
            None => current,
        };
        BalanceAtHeight { balance: self.ledger.shares_at_height(address, h), height: h }
    }

    /// The shares outstanding as of `height`, or as of `current` when none is given.
    pub fn query_total_staked_at_height(&self, height: Option<u64>, current: u64) -> (r: BalanceAtHeight)
        ensures
            r.height == (match height {
                Some(h) => h,
                None => current,
            }),
            r.balance == self.ledger.total_at(r.height),
    {
        let h = match height {
            Some(h) => h,
            None => current,
        };
        BalanceAtHeight { balance: self.ledger.total_at_height(h), height: h }
    }

    /// The value of `address`'s shares.
    pub fn query_staked_value(&self, address: &String) -> (r: Result<u128, ContractError>)
        requires
            self.wf(),
        ensures
            r == self.ledger.value_outcome(address@),
    {
        self.ledger.staked_value(address)
    }

    /// The balance held.
    pub fn query_total_value(&self) -> (r: u128)
        ensures
            r == self.ledger.balance,
    {
        self.ledger.balance
    }

    pub fn query_config(&self) -> (r: &Config)
        ensures
            *r == self.config,
    {
        &self.config
    }

    /// The pending claims of `address`, oldest first.
    pub fn query_claims(&self, address: &String) -> (r: Vec<Claim>)
        ensures
            r@ == self.claims.of(address@),
    {
        self.claims.list(address)
    }

    /// The registered hooks, in order.
    pub fn query_hooks(&self) -> (r: Vec<String>)
        ensures
            r@.len() == self.hooks@.len(),
            forall|i: int| 0 <= i < r@.len() ==> (#[trigger] r@[i])@ == self.hooks@[i],
    {
        self.hooks.list()
    }

    /// A page of holders with their current shares, in address order, after
    /// `start_after`, at most `limit` long (everyone when there is no limit).
    pub fn query_list_stakers(&self, start_after: &Option<String>, limit: Option<u32>) -> (r: Vec<StakerBalance>)
        requires
            self.wf(),
        ensures
            limit matches Some(l) ==> (r@.len() <= l),
            forall|i: int| 0 <= i < r@.len() ==> {
                &&& self.ledger.is_staker((#[trigger] r@[i]).address@)
                &&& r@[i].balance == self.ledger.shares_of(r@[i].address@)
                &&& after_bound(r@[i].address@, *start_after)
            },
            forall|i: int| 0 <= i < r@.len() - 1 ==> addr_lt((#[trigger] r@[i]).address@, r@[i + 1].address@),
            forall|j: int| 0 <= j < self.ledger.stakers@.len() && after_bound((#[trigger] self.ledger.stakers@[j]).addr@, *start_after) ==> {
                ||| exists|i: int| 0 <= i < r@.len() && (#[trigger] r@[i]).address@ == self.ledger.stakers@[j].addr@
                ||| (limit matches Some(l) && r@.len() == l && r@.len() > 0
                    && addr_lt(r@[r@.len() - 1].address@, self.ledger.stakers@[j].addr@))
                ||| limit == Some(0u32)
            },
    {
        self.ledger.list_stakers(start_after, limit)
    }

    /// The addresses of the registered reward contracts.
    pub fn query_all_reward_contracts(&self) -> (r: Vec<String>)
        ensures
            r@.len() == self.reward_contracts.entries@.len(),
            forall|i: int| 0 <= i < r@.len() ==> (#[trigger] r@[i])@ == self.reward_contracts.entries@[i].contract@,
    {
        self.reward_contracts.contracts()
    }
}

} // verus!
