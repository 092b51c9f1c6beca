//! The reward-distribution contract registered for each reward denom.
use vstd::prelude::*;

verus! {

/// A token as a reward contract reports it: a native denom or a cw20 contract.
#[derive(Debug, Clone, PartialEq, Eq)]
pub enum Denom {
    Native(String),
    Cw20(String),
}

#[derive(Debug, Clone, PartialEq, Eq)]
pub struct RewardContract {
    pub denom: String,
    pub contract: String,
}

/// The registry as a map from denom to contract address.
pub open spec fn reward_map(s: Seq<RewardContract>) -> Map<Seq<char>, Seq<char>>
    decreases s.len(),
{
    if s.len() == 0 {
        Map::empty()
    } else {
        reward_map(s.drop_last()).insert(s.last().denom@, s.last().contract@)
    }
}

pub open spec fn unique_denoms(s: Seq<RewardContract>) -> bool {
    forall|i: int, j: int| 0 <= i < j < s.len() ==> (#[trigger] s[i]).denom@ != (#[trigger] s[j]).denom@
}

proof fn lemma_reward_map_absent(s: Seq<RewardContract>, d: Seq<char>)
    requires
        forall|i: int| 0 <= i < s.len() ==> (#[trigger] s[i]).denom@ != d,
    ensures
        !reward_map(s).contains_key(d),
    decreases s.len(),
{
    if s.len() > 0 {
        assert forall|i: int| 0 <= i < s.drop_last().len() implies (#[trigger] s.drop_last()[i]).denom@ != d by {
            assert(s.drop_last()[i] == s[i]);
        }
        assert(s.last() == s[s.len() - 1]);
        lemma_reward_map_absent(s.drop_last(), d);
    }
}

proof fn lemma_reward_map_index(s: Seq<RewardContract>, i: int)
    requires
        unique_denoms(s),
        0 <= i < s.len(),
    ensures
        reward_map(s).contains_key(s[i].denom@),
        reward_map(s)[s[i].denom@] == s[i].contract@,
    decreases s.len(),
{
    assert(s.last() == s[s.len() - 1]);
    if i < s.len() - 1 {
        assert(s.drop_last()[i] == s[i]);
        lemma_reward_map_index(s.drop_last(), i);
    }
}

proof fn lemma_reward_map_update(s: Seq<RewardContract>, i: int, x: RewardContract)
    requires
        unique_denoms(s),
        0 <= i < s.len(),
        x.denom@ == s[i].denom@,
    ensures
        reward_map(s.update(i, x)) == reward_map(s).insert(x.denom@, x.contract@),
    decreases s.len(),
{
    let t = s.update(i, x);
    assert(s.last() == s[s.len() - 1]);
    if i == s.len() - 1 {
        assert(t.drop_last() =~= s.drop_last());
        assert(reward_map(t) =~= reward_map(s).insert(x.denom@, x.contract@));
    } else {
        assert(t.drop_last() =~= s.drop_last().update(i, x));
        assert(s.drop_last()[i] == s[i]);
        lemma_reward_map_update(s.drop_last(), i, x);
        assert(reward_map(t) =~= reward_map(s).insert(x.denom@, x.contract@));
    }
}

#[derive(Debug, Clone, PartialEq, Eq)]
pub struct RewardContracts {
    pub entries: Vec<RewardContract>,
}

impl RewardContracts {
    pub fn new() -> (r: RewardContracts)
        ensures
            r.wf(),
            r@ == Map::<Seq<char>, Seq<char>>::empty(),
    {
        RewardContracts { entries: Vec::new() }
    }

    pub open spec fn view(&self) -> Map<Seq<char>, Seq<char>> {
        reward_map(self.entries@)
    }

    pub open spec fn wf(&self) -> bool {
        unique_denoms(self.entries@)
    }

    fn position(&self, denom: &String) -> (r: Option<usize>)
        ensures
            r matches Some(i) ==> i < self.entries@.len() && self.entries@[i as int].denom@ == denom@,
            r is None ==> forall|i: int| 0 <= i < self.entries@.len() ==> (#[trigger] self.entries@[i]).denom@ != denom@,
    {
        let mut i: usize = 0;
        while i < self.entries.len()
            invariant
                i <= self.entries@.len(),
                forall|k: int| 0 <= k < i ==> (#[trigger] self.entries@[k]).denom@ != denom@,
            decreases self.entries@.len() - i,
        {
            if self.entries[i].denom == *denom {
                return Some(i);
            }
            i = i + 1;
        }
        None
    }

    /// The contract registered for `denom`.
    pub fn get(&self, denom: &String) -> (r: Option<String>)
        requires
            self.wf(),
        ensures
            r is Some <==> self@.contains_key(denom@),
            r matches Some(c) ==> c@ == self@[denom@],
    {
        match self.position(denom) {
            Some(i) => {
                proof {
                    lemma_reward_map_index(self.entries@, i as int);
                }
                Some(self.entries[i].contract.clone())
            },
            None => {
                proof {
                    lemma_reward_map_absent(self.entries@, denom@);
                }
                None
            },
        }
    }

    /// Registers `contract` for `denom`, replacing any earlier one.
    pub fn save(&mut self, denom: String, contract: String)
        requires
            old(self).wf(),
        ensures
            final(self).wf(),
            final(self)@ == old(self)@.insert(denom@, contract@),
    {
        match self.position(&denom) {
            Some(i) => {
                let x = RewardContract { denom, contract };
                proof {
                    lemma_reward_map_update(self.entries@, i as int, x);
                }
                self.entries.set(i, x);
            },
            None => {
                let ghost s0 = self.entries@;
                self.entries.push(RewardContract { denom, contract });
                assert(self.entries@.drop_last() =~= s0);
            },
        }
    }

    /// The registered contract addresses.
    pub fn contracts(&self) -> (r: Vec<String>)
        ensures
            r@.len() == self.entries@.len(),
            forall|i: int| 0 <= i < r@.len() ==> (#[trigger] r@[i])@ == self.entries@[i].contract@,
    {
        let mut out: Vec<String> = Vec::new();
        let mut i: usize = 0;
        while i < self.entries.len()
            invariant
                i <= self.entries@.len(),
                out@.len() == i,
                forall|k: int| 0 <= k < i ==> (#[trigger] out@[k])@ == self.entries@[k].contract@,
            decreases self.entries@.len() - i,
        {
            out.push(self.entries[i].contract.clone());
            i = i + 1;
        }
        out
    }
}

} // verus!
