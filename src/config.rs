//! Governance parameters, cooldowns, and who may do what.
use vstd::prelude::*;
use crate::error::ContractError;

verus! {

/// A span of blocks or of seconds.
#[derive(Debug, Clone, Copy, PartialEq, Eq, Structural)]
pub enum Duration {
    Height(u64),
    Time(u64),
}

/// A point from which on a claim may be settled: a block height, or a block time
/// in nanoseconds.
#[derive(Debug, Clone, Copy, PartialEq, Eq, Structural)]
pub enum Expiration {
    AtHeight(u64),
    AtTime(u64),
}

/// The block an operation runs in: its height and its time in nanoseconds.
#[derive(Debug, Clone, Copy, PartialEq, Eq, Structural)]
pub struct BlockInfo {
    pub height: u64,
    pub time: u64,
}

pub const NANOS_PER_SECOND: u64 = 1_000_000_000;

pub open spec fn is_expired(e: Expiration, block: BlockInfo) -> bool {
    match e {
        Expiration::AtHeight(h) => block.height >= h,
        Expiration::AtTime(t) => block.time >= t,
    }
}

/// When a cooldown started in `block` ends; none when that point overflows.
pub open spec fn expiration_after(d: Duration, block: BlockInfo) -> Option<Expiration> {
    match d {
        Duration::Height(h) => if block.height + h <= u64::MAX {
            Some(Expiration::AtHeight((block.height + h) as u64))
        } else {
            None
        },
        Duration::Time(s) => if block.time + s * NANOS_PER_SECOND <= u64::MAX {
            Some(Expiration::AtTime((block.time + s * NANOS_PER_SECOND) as u64))
        } else {
            None
        },
    }
}

impl Expiration {
    pub fn is_expired(&self, block: &BlockInfo) -> (r: bool)
        ensures
            r == is_expired(*self, *block),
    {
        match self {
            Expiration::AtHeight(h) => block.height >= *h,
            Expiration::AtTime(t) => block.time >= *t,
        }
    }
}

impl Duration {
    /// The end of this cooldown when started in `block`.
    pub fn after(&self, block: &BlockInfo) -> (r: Result<Expiration, ContractError>)
        ensures
            r == (match expiration_after(*self, *block) {
                Some(e) => Ok(e),
                None => Err(ContractError::Overflow),
            }),
    {
        match self {
            Duration::Height(h) => match block.height.checked_add(*h) {
                Some(v) => Ok(Expiration::AtHeight(v)),
                None => Err(ContractError::Overflow),
            },
            Duration::Time(s) => match s.checked_mul(NANOS_PER_SECOND) {
                Some(n) => match block.time.checked_add(n) {
                    Some(v) => Ok(Expiration::AtTime(v)),
                    None => Err(ContractError::Overflow),
                },
                None => {
                    assert(block.time + s * NANOS_PER_SECOND > u64::MAX);
                    Err(ContractError::Overflow)
                },
            },
        }
    }
}

/// A cooldown, when present, is not zero.
pub open spec fn valid_duration(d: Option<Duration>) -> bool {
    match d {
        Some(Duration::Height(h)) => h != 0,
        Some(Duration::Time(t)) => t != 0,
        None => true,
    }
}

pub fn validate_duration(duration: Option<Duration>) -> (r: Result<(), ContractError>)
    ensures
        r == (if valid_duration(duration) {
            Ok(())
        } else {
            Err(ContractError::InvalidUnstakingDuration)
        }),
{
    match duration {
        Some(Duration::Height(h)) => if h == 0 {
            return Err(ContractError::InvalidUnstakingDuration);
        },
        Some(Duration::Time(t)) => if t == 0 {
            return Err(ContractError::InvalidUnstakingDuration);
        },
        None => {},
    }
    Ok(())
}

/// Governance parameters.
#[derive(Debug, Clone, PartialEq, Eq)]
pub struct Config {
    pub owner: Option<String>,
    pub manager: Option<String>,
    /// The denom that is staked.
    pub denom: String,
    pub unstaking_duration: Option<Duration>,
    /// Code id of the reward-distribution contract instantiated per reward denom.
    pub reward_contract_code_id: u64,
}

pub open spec fn opt_view(a: Option<String>) -> Option<Seq<char>> {
    match a {
        Some(s) => Some(s@),
        None => None,
    }
}

/// Whether `a` holds exactly `who`.
pub fn is_role(a: &Option<String>, who: &String) -> (r: bool)
    ensures
        r == (opt_view(*a) == Some(who@)),
{
    match a {
        Some(s) => *s == *who,
        None => false,
    }
}

fn same_opt(a: &Option<String>, b: &Option<String>) -> (r: bool)
    ensures
        r == (opt_view(*a) == opt_view(*b)),
{
    match (a, b) {
        (Some(x), Some(y)) => *x == *y,
        (None, None) => true,
        _ => false,
    }
}

/// The privilege a caller holds.
#[derive(Debug, Clone, Copy, PartialEq, Eq, Structural)]
pub enum Role {
    Owner,
    Manager,
    Neither,
}

impl Config {
    /// The caller's privilege: owner before manager, when it is both.
    pub fn role(&self, caller: &String) -> (r: Role)
        ensures
            r == (if self.is_owner(caller@) {
                Role::Owner
            } else if self.is_manager(caller@) {
                Role::Manager
            } else {
                Role::Neither
            }),
    {
        if is_role(&self.owner, caller) {
            Role::Owner
        } else if is_role(&self.manager, caller) {
            Role::Manager
        } else {
            Role::Neither
        }
    }

    pub open spec fn is_owner(&self, who: Seq<char>) -> bool {
        opt_view(self.owner) == Some(who)
    }

    pub open spec fn is_manager(&self, who: Seq<char>) -> bool {
        opt_view(self.manager) == Some(who)
    }

    pub open spec fn is_admin(&self, who: Seq<char>) -> bool {
        self.is_owner(who) || self.is_manager(who)
    }

    /// The owner and the manager may act; anyone else is refused.
    pub fn authorize_admin(&self, sender: &String) -> (r: Result<(), ContractError>)
        ensures
            r == (if self.is_admin(sender@) {
                Ok(())
            } else {
                Err(ContractError::Unauthorized)
            }),
    {
        match self.role(sender) {
            Role::Neither => Err(ContractError::Unauthorized),
            _ => Ok(()),
        }
    }

    /// Only the manager may act.
    pub fn authorize_manager(&self, sender: &String) -> (r: Result<(), ContractError>)
        ensures
            r == (if self.is_manager(sender@) {
                Ok(())
            } else {
                Err(ContractError::Unauthorized)
            }),
    {
        if is_role(&self.manager, sender) {
            Ok(())
        } else {
            Err(ContractError::Unauthorized)
        }
    }

    /// What an update by `sender` does, or why it is refused.
    pub open spec fn update_outcome(&self, sender: Seq<char>, new_owner: Option<String>, duration: Option<Duration>) -> Result<(), ContractError> {
        if !self.is_admin(sender) {
            Err(ContractError::Unauthorized)
        } else if !self.is_owner(sender) && opt_view(new_owner) != opt_view(self.owner) {
            Err(ContractError::OnlyOwnerCanChangeOwner)
        } else if !valid_duration(duration) {
            Err(ContractError::InvalidUnstakingDuration)
        } else {
            Ok(())
        }
    }

    /// Replaces owner, manager and cooldown. Owner and manager may update; only the
    /// owner may change who the owner is.
    pub fn update(&mut self, sender: &String, new_owner: Option<String>, new_manager: Option<String>, duration: Option<Duration>) -> (r: Result<(), ContractError>)
        ensures
            r == old(self).update_outcome(sender@, new_owner, duration),
            r is Err ==> *final(self) == *old(self),
            r is Ok ==> *final(self) == (Config {
                owner: new_owner,
                manager: new_manager,
                unstaking_duration: duration,
                ..*old(self)
            }),
    {
        self.authorize_admin(sender)?;
        if !is_role(&self.owner, sender) && !same_opt(&new_owner, &self.owner) {
            return Err(ContractError::OnlyOwnerCanChangeOwner);
        }
        validate_duration(duration)?;
        self.owner = new_owner;
        self.manager = new_manager;
        self.unstaking_duration = duration;
        Ok(())
    }
}

/// Steps that the contract schedules for itself are accepted only from itself.
pub fn authorize_self(sender: &String, contract: &String) -> (r: Result<(), ContractError>)
    ensures
        r == (if sender@ == contract@ {
            Ok(())
        } else {
            Err(ContractError::Unauthorized)
        }),
{
    if *sender == *contract {
        Ok(())
    } else {
        Err(ContractError::Unauthorized)
    }
}

} // verus!
