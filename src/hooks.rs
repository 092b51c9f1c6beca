//! Listeners told of every change of a holder's shares, in registration order.
use vstd::prelude::*;
use crate::error::ContractError;

verus! {

#[derive(Debug, Clone, Copy, PartialEq, Eq, Structural)]
pub enum StakeChange {
    Stake,
    Unstake,
}

/// One notification: `hook` is told that `addr`'s shares changed by `amount`.
#[derive(Debug, Clone, PartialEq, Eq)]
pub struct HookMsg {
    pub hook: String,
    pub change: StakeChange,
    pub addr: String,
    pub amount: u128,
}

/// The registered listeners, each once, in the order they were added.
#[derive(Debug, Clone, PartialEq, Eq)]
pub struct Hooks {
    pub hooks: Vec<String>,
}

impl Hooks {
    pub fn new() -> (r: Hooks)
        ensures
            r@.len() == 0,
            r.wf(),
    {
        Hooks { hooks: Vec::new() }
    }

    pub open spec fn view(&self) -> Seq<Seq<char>> {
        self.hooks@.map_values(|h: String| h@)
    }

    pub open spec fn wf(&self) -> bool {
        self@.no_duplicates()
    }

    fn position(&self, addr: &String) -> (r: Option<usize>)
        ensures
            r matches Some(i) ==> i < self@.len() && self@[i as int] == addr@,
            r is None ==> !self@.contains(addr@),
    {
        let mut i: usize = 0;
        while i < self.hooks.len()
            invariant
                i <= self.hooks@.len(),
                forall|k: int| 0 <= k < i ==> self@[k] != addr@,
            decreases self.hooks@.len() - i,
        {
            if self.hooks[i] == *addr {
                return Some(i);
            }
            i = i + 1;
        }
        None
    }

    /// Registers `addr`; an address already registered is refused.
    pub fn add_hook(&mut self, addr: String) -> (r: Result<(), ContractError>)
        requires
            old(self).wf(),
        ensures
            final(self).wf(),
            r == (if old(self)@.contains(addr@) {
                Err(ContractError::HookAlreadyRegistered)
            } else {
                Ok(())
            }),
            r is Err ==> *final(self) == *old(self),
            r is Ok ==> final(self)@ == old(self)@.push(addr@),
    {
        if self.position(&addr).is_some() {
            return Err(ContractError::HookAlreadyRegistered);
        }
        self.hooks.push(addr);
        assert(self@ =~= old(self)@.push(addr@));
        Ok(())
    }

    /// Unregisters `addr`; an address not registered is refused.
    pub fn remove_hook(&mut self, addr: &String) -> (r: Result<(), ContractError>)
        requires
            old(self).wf(),
        ensures
            final(self).wf(),
            r == (if old(self)@.contains(addr@) {
                Ok(())
            } else {
                Err(ContractError::HookNotRegistered)
            }),
            r is Err ==> *final(self) == *old(self),
            r is Ok ==> exists|i: int|
                0 <= i < old(self)@.len() && old(self)@[i] == addr@ && final(self)@ == old(self)@.remove(i),
            r is Ok ==> !final(self)@.contains(addr@),
    {
        match self.position(addr) {
            Some(i) => {
                self.hooks.remove(i);
                assert(self@ =~= old(self)@.remove(i as int));
                assert(self@.no_duplicates()) by {
                    assert forall|a: int, b: int| 0 <= a < b < self@.len() implies self@[a] != self@[b] by {
                        let oa = if a < i { a } else { a + 1 };
                        let ob = if b < i { b } else { b + 1 };
                        assert(self@[a] == old(self)@[oa]);
                        assert(self@[b] == old(self)@[ob]);
                    }
                }
                assert(!self@.contains(addr@)) by {
                    if self@.contains(addr@) {
                        let k = choose|k: int| 0 <= k < self@.len() && self@[k] == addr@;
                        let ok = if k < i { k } else { k + 1 };
                        assert(old(self)@[ok] == addr@);
                    }
                }
                Ok(())
            },
            None => Err(ContractError::HookNotRegistered),
        }
    }

    /// The registered addresses, in order.
    pub fn list(&self) -> (r: Vec<String>)
        ensures
            r@.len() == self@.len(),
            forall|i: int| 0 <= i < r@.len() ==> (#[trigger] r@[i])@ == self@[i],
    {
        let mut out: Vec<String> = Vec::new();
        let mut i: usize = 0;
        while i < self.hooks.len()
            invariant
                i <= self.hooks@.len(),
                out@.len() == i,
                forall|k: int| 0 <= k < i ==> (#[trigger] out@[k])@ == self@[k],
            decreases self.hooks@.len() - i,
        {
            out.push(self.hooks[i].clone());
            i = i + 1;
        }
        out
    }

    /// One notification per registered hook, in registration order.
    pub fn messages(&self, change: StakeChange, addr: &String, amount: u128) -> (r: Vec<HookMsg>)
        ensures
            r@.len() == self@.len(),
            forall|i: int| 0 <= i < r@.len() ==> {
                &&& (#[trigger] r@[i]).hook@ == self@[i]
                &&& r@[i].change == change
                &&& r@[i].addr@ == addr@
                &&& r@[i].amount == amount
            },
    {
        let mut out: Vec<HookMsg> = Vec::new();
        let mut i: usize = 0;
        while i < self.hooks.len()
            invariant
                i <= self.hooks@.len(),
                out@.len() == i,
                forall|k: int| 0 <= k < i ==> {
                    &&& (#[trigger] out@[k]).hook@ == self@[k]
                    &&& out@[k].change == change
                    &&& out@[k].addr@ == addr@
                    &&& out@[k].amount == amount
                },
            decreases self.hooks@.len() - i,
        {
            out.push(HookMsg { hook: self.hooks[i].clone(), change, addr: addr.clone(), amount });
            i = i + 1;
        }
        out
    }
}

} // verus!
