//! The proportional-share ledger: the value held, the shares outstanding, and
//! each holder's shares, all with their history by block height.
use vstd::prelude::*;
use crate::error::ContractError;
use crate::order::{addr_lt, addr_less, lemma_lt_total, lemma_lt_transitive};
use crate::history::{History, Snapshot, value_at, latest_of, lemma_past_snapshot_stable};

verus! {

/// A holder's shares through time.
#[derive(Debug, Clone, PartialEq, Eq)]
pub struct Staker {
    pub addr: String,
    pub history: History,
}

/// The history of the holder `addr`, or no entries when it never held shares.
pub open spec fn history_of(stakers: Seq<Staker>, addr: Seq<char>) -> Seq<Snapshot>
    decreases stakers.len(),
{
    if stakers.len() == 0 {
        Seq::empty()
    } else if stakers.last().addr@ == addr {
        stakers.last().history.entries@
    } else {
        history_of(stakers.drop_last(), addr)
    }
}

/// The sum over all holders of their latest shares.
pub open spec fn sum_latest(stakers: Seq<Staker>) -> int
    decreases stakers.len(),
{
    if stakers.len() == 0 {
        0
    } else {
        sum_latest(stakers.drop_last()) + latest_of(stakers.last().history.entries@)
    }
}

pub open spec fn unique_addrs(stakers: Seq<Staker>) -> bool {
    forall|i: int, j: int|
        0 <= i < j < stakers.len() ==> (#[trigger] stakers[i]).addr@ != (#[trigger] stakers[j]).addr@
}

/// Shares issued for a deposit of `amount`: one for one while nothing is staked or
/// nothing is held, else `floor(total * amount / balance)`; none when the product overflows.
pub open spec fn shares_for_deposit(total: u128, balance: u128, amount: u128) -> Option<u128> {
    if total == 0 || balance == 0 {
        Some(amount)
    } else if total * amount <= u128::MAX {
        Some((total * amount / (balance as int)) as u128)
    } else {
        None
    }
}

proof fn lemma_history_of_index(s: Seq<Staker>, i: int)
    requires
        unique_addrs(s),
        0 <= i < s.len(),
    ensures
        history_of(s, s[i].addr@) == s[i].history.entries@,
    decreases s.len(),
{
    if i < s.len() - 1 {
        assert(s.drop_last()[i] == s[i]);
        assert(s.last() == s[s.len() - 1]);
        lemma_history_of_index(s.drop_last(), i);
    }
}

proof fn lemma_history_of_absent(s: Seq<Staker>, a: Seq<char>)
    requires
        forall|i: int| 0 <= i < s.len() ==> (#[trigger] s[i]).addr@ != a,
    ensures
        history_of(s, a) == Seq::<Snapshot>::empty(),
    decreases s.len(),
{
    if s.len() > 0 {
        assert(s.last() == s[s.len() - 1]);
        assert forall|i: int| 0 <= i < s.drop_last().len() implies (#[trigger] s.drop_last()[i]).addr@ != a by {
            assert(s.drop_last()[i] == s[i]);
        }
        lemma_history_of_absent(s.drop_last(), a);
    }
}

proof fn lemma_history_of_update(s: Seq<Staker>, i: int, x: Staker, a: Seq<char>)
    requires
        unique_addrs(s),
        0 <= i < s.len(),
        x.addr@ == s[i].addr@,
    ensures
        history_of(s.update(i, x), a) == (if a == s[i].addr@ { x.history.entries@ } else { history_of(s, a) }),
    decreases s.len(),
{
    let t = s.update(i, x);
    assert(s.last() == s[s.len() - 1]);
    if i == s.len() - 1 {
        assert(t.drop_last() =~= s.drop_last());
    } else {
        assert(t.drop_last() =~= s.drop_last().update(i, x));
        assert(t.last() == s.last());
        assert(s.drop_last()[i] == s[i]);
        if s.last().addr@ != a {
            lemma_history_of_update(s.drop_last(), i, x, a);
        }
    }
}

proof fn lemma_sum_update(s: Seq<Staker>, i: int, x: Staker)
    requires
        0 <= i < s.len(),
    ensures
        sum_latest(s.update(i, x)) == sum_latest(s) - latest_of(s[i].history.entries@) + latest_of(x.history.entries@),
    decreases s.len(),
{
    let t = s.update(i, x);
    assert(s.last() == s[s.len() - 1]);
    if i == s.len() - 1 {
        assert(t.drop_last() =~= s.drop_last());
    } else {
        assert(t.drop_last() =~= s.drop_last().update(i, x));
        assert(s.drop_last()[i] == s[i]);
        lemma_sum_update(s.drop_last(), i, x);
    }
}

proof fn lemma_latest_le_sum(s: Seq<Staker>, a: Seq<char>)
    ensures
        latest_of(history_of(s, a)) <= sum_latest(s),
        sum_latest(s) >= 0,
    decreases s.len(),
{
    if s.len() > 0 {
        lemma_latest_le_sum(s.drop_last(), a);
    }
}

proof fn lemma_part_of_whole(s: int, b: int, t: int)
    requires
        0 <= s <= t,
        t > 0,
        b >= 0,
    ensures
        s * b / t <= b,
{
    vstd::arithmetic::mul::lemma_mul_inequality(s, t, b);
    vstd::arithmetic::div_mod::lemma_div_is_ordered(s * b, t * b, t);
    vstd::arithmetic::mul::lemma_mul_is_commutative(t, b);
    vstd::arithmetic::div_mod::lemma_div_by_multiple(b, t);
}

/// A holder and its current shares.
#[derive(Debug, Clone, PartialEq, Eq)]
pub struct StakerBalance {
    pub address: String,
    pub balance: u128,
}

/// Whether `a` comes after `bound` (anything does when there is no bound).
pub open spec fn after_bound(a: Seq<char>, bound: Option<String>) -> bool {
    match bound {
        Some(b) => addr_lt(b@, a),
        None => true,
    }
}

/// How many holders come after `bound`.
pub open spec fn count_after(s: Seq<Staker>, bound: Option<String>) -> nat
    decreases s.len(),
{
    if s.len() == 0 {
        0
    } else {
        count_after(s.drop_last(), bound) + if after_bound(s.last().addr@, bound) { 1nat } else { 0nat }
    }
}

proof fn lemma_count_after_decreases(s: Seq<Staker>, wide: Option<String>, narrow: Option<String>, j: int)
    requires
        forall|k: int| 0 <= k < s.len() && after_bound((#[trigger] s[k]).addr@, narrow) ==> after_bound(s[k].addr@, wide),
        0 <= j < s.len(),
        after_bound(s[j].addr@, wide),
        !after_bound(s[j].addr@, narrow),
    ensures
        count_after(s, narrow) < count_after(s, wide),
    decreases s.len(),
{
    lemma_count_after_le(s, wide, narrow);
    let t = s.drop_last();
    assert(s.last() == s[s.len() - 1]);
    assert forall|k: int| 0 <= k < t.len() && after_bound((#[trigger] t[k]).addr@, narrow) implies after_bound(t[k].addr@, wide) by {
        assert(t[k] == s[k]);
    }
    if j < s.len() - 1 {
        assert(t[j] == s[j]);
        lemma_count_after_decreases(t, wide, narrow, j);
    } else {
        lemma_count_after_le(t, wide, narrow);
    }
}

proof fn lemma_count_after_le(s: Seq<Staker>, wide: Option<String>, narrow: Option<String>)
    requires
        forall|k: int| 0 <= k < s.len() && after_bound((#[trigger] s[k]).addr@, narrow) ==> after_bound(s[k].addr@, wide),
    ensures
        count_after(s, narrow) <= count_after(s, wide),
    decreases s.len(),
{
    if s.len() > 0 {
        let t = s.drop_last();
        assert(s.last() == s[s.len() - 1]);
        assert forall|k: int| 0 <= k < t.len() && after_bound((#[trigger] t[k]).addr@, narrow) implies after_bound(t[k].addr@, wide) by {
            assert(t[k] == s[k]);
        }
        lemma_count_after_le(t, wide, narrow);
    }
}

fn is_after(a: &String, bound: &Option<String>) -> (r: bool)
    ensures
        r == after_bound(a@, *bound),
{
    match bound {
        Some(b) => addr_less(b, a),
        None => true,
    }
}

/// The staked value, the shares outstanding and each holder's shares.
#[derive(Debug, Clone, PartialEq, Eq)]
pub struct Ledger {
    /// Units of the staked asset held and not yet paid out.
    pub balance: u128,
    /// Shares outstanding through time.
    pub total: History,
    pub stakers: Vec<Staker>,
    /// The height of the latest write.
    pub height: u64,
}

impl Ledger {
    /// Histories ordered and not ahead of `height`, one entry per holder, and the
    /// holders' latest shares adding up to the latest total.
    pub open spec fn wf(&self) -> bool {
        &&& self.total.wf(self.height)
        &&& forall|i: int| 0 <= i < self.stakers@.len() ==> (#[trigger] self.stakers@[i]).history.wf(self.height)
        &&& unique_addrs(self.stakers@)
        &&& sum_latest(self.stakers@) == latest_of(self.total.entries@)
    }

    pub open spec fn total_shares(&self) -> u128 {
        latest_of(self.total.entries@)
    }

    pub open spec fn history(&self, addr: Seq<char>) -> Seq<Snapshot> {
        history_of(self.stakers@, addr)
    }

    pub open spec fn shares_of(&self, addr: Seq<char>) -> u128 {
        latest_of(self.history(addr))
    }

    pub open spec fn shares_of_at(&self, addr: Seq<char>, height: u64) -> u128 {
        value_at(self.history(addr), height)
    }

    pub open spec fn total_at(&self, height: u64) -> u128 {
        value_at(self.total.entries@, height)
    }

    /// What a deposit of `amount` by `holder` issues, or why it fails.
    pub open spec fn deposit_outcome(&self, holder: Seq<char>, amount: u128) -> Result<u128, ContractError> {
        match shares_for_deposit(self.total_shares(), self.balance, amount) {
            Some(issued) => if self.shares_of(holder) + issued > u128::MAX
                || self.total_shares() + issued > u128::MAX
                || self.balance + amount > u128::MAX {
                Err(ContractError::Overflow)
            } else {
                Ok(issued)
            },
            None => Err(ContractError::Overflow),
        }
    }

    /// What a withdrawal of `shares` by `holder` releases, or why it fails:
    /// `floor(shares * balance / total)`.
    pub open spec fn withdraw_outcome(&self, holder: Seq<char>, shares: u128) -> Result<u128, ContractError> {
        if shares == 0 || self.total_shares() == 0 {
            Err(ContractError::InvalidUnstakeAmount)
        } else if shares * self.balance > u128::MAX {
            Err(ContractError::Overflow)
        } else if shares > self.shares_of(holder) {
            Err(ContractError::InvalidUnstakeAmount)
        } else {
            Ok((shares * self.balance / (self.total_shares() as int)) as u128)
        }
    }

    /// `after` is this ledger once `holder` deposited `amount` at `height` for `issued` shares.
    pub open spec fn deposit_effect(&self, after: &Ledger, holder: Seq<char>, amount: u128, height: u64, issued: u128) -> bool {
        &&& after.balance == self.balance + amount
        &&& after.height == height
        &&& after.total.entries@ == self.total.entries@.push(Snapshot { height, value: (self.total_shares() + issued) as u128 })
        &&& after.history(holder) == self.history(holder).push(Snapshot { height, value: (self.shares_of(holder) + issued) as u128 })
        &&& forall|a: Seq<char>| a != holder ==> #[trigger] after.history(a) == self.history(a)
        &&& self.past_unchanged(after, height)
    }

    /// `after` is this ledger once `holder` withdrew `shares` at `height` for `value`.
    pub open spec fn withdraw_effect(&self, after: &Ledger, holder: Seq<char>, shares: u128, height: u64, value: u128) -> bool {
        &&& after.balance == self.balance - value
        &&& after.height == height
        &&& after.total.entries@ == self.total.entries@.push(Snapshot { height, value: (self.total_shares() - shares) as u128 })
        &&& after.history(holder) == self.history(holder).push(Snapshot { height, value: (self.shares_of(holder) - shares) as u128 })
        &&& forall|a: Seq<char>| a != holder ==> #[trigger] after.history(a) == self.history(a)
        &&& self.past_unchanged(after, height)
    }

    /// A ledger with nothing held and a total of zero shares written at `height`.
    pub fn new(height: u64) -> (r: Ledger)
        ensures
            r.wf(),
            r.height == height,
            r.balance == 0,
            r.total.entries@ == seq![Snapshot { height, value: 0 }],
            r.stakers@.len() == 0,
    {
        let mut total = History::new();
        total.record(height, 0);
        Ledger { balance: 0, total, stakers: Vec::new(), height }
    }

    /// The shares outstanding now.
    pub fn total_shares_now(&self) -> (r: u128)
        ensures
            r == self.total_shares(),
    {
        self.total.latest()
    }

    fn find(&self, addr: &String) -> (r: Option<usize>)
        ensures
            r matches Some(i) ==> i < self.stakers@.len() && self.stakers@[i as int].addr@ == addr@,
            r is None ==> forall|i: int| 0 <= i < self.stakers@.len() ==> (#[trigger] self.stakers@[i]).addr@ != addr@,
    {
        let mut i: usize = 0;
        while i < self.stakers.len()
            invariant
                i <= self.stakers@.len(),
                forall|k: int| 0 <= k < i ==> (#[trigger] self.stakers@[k]).addr@ != addr@,
            decreases self.stakers@.len() - i,
        {
            if self.stakers[i].addr == *addr {
                return Some(i);
            }
            i = i + 1;
        }
        None
    }

    /// The current shares of `addr` (0 for a holder never seen).
    pub fn shares(&self, addr: &String) -> (r: u128)
        requires
            self.wf(),
        ensures
            r == self.shares_of(addr@),
    {
        match self.find(addr) {
            Some(i) => {
                proof {
                    lemma_history_of_index(self.stakers@, i as int);
                }
                self.stakers[i].history.latest()
            },
            None => {
                proof {
                    lemma_history_of_absent(self.stakers@, addr@);
                }
                0
            },
        }
    }

    /// The shares of `addr` as of `height` (0 before its first write).
    pub fn shares_at_height(&self, addr: &String, height: u64) -> (r: u128)
        requires
            self.wf(),
        ensures
            r == self.shares_of_at(addr@, height),
    {
        match self.find(addr) {
            Some(i) => {
                proof {
                    lemma_history_of_index(self.stakers@, i as int);
                }
                self.stakers[i].history.at_height(height)
            },
            None => {
                proof {
                    lemma_history_of_absent(self.stakers@, addr@);
                }
                0
            },
        }
    }

    /// The shares outstanding as of `height`.
    pub fn total_at_height(&self, height: u64) -> (r: u128)
        ensures
            r == self.total_at(height),
    {
        self.total.at_height(height)
    }

    /// Writes the new shares of `addr` at `height`, and the new total beside it.
    fn write_shares(&mut self, addr: &String, value: u128, new_total: u128, height: u64)
        requires
            old(self).wf(),
            old(self).height <= height,
            new_total == sum_latest(old(self).stakers@) - old(self).shares_of(addr@) + value,
        ensures
            final(self).wf(),
            final(self).height == height,
            final(self).balance == old(self).balance,
            final(self).total.entries@ == old(self).total.entries@.push(Snapshot { height, value: new_total }),
            final(self).history(addr@) == old(self).history(addr@).push(Snapshot { height, value }),
            forall|a: Seq<char>| a != addr@ ==> final(self).history(a) == old(self).history(a),
    {
        let ghost s0 = self.stakers@;
        self.height = height;
        assert forall|i: int| 0 <= i < self.stakers@.len() implies (#[trigger] self.stakers@[i]).history.wf(height) by {
            assert(old(self).stakers@[i].history.wf(old(self).height));
        }
        match self.find(addr) {
            Some(i) => {
                proof {
                    lemma_history_of_index(s0, i as int);
                }
                let mut history = History { entries: self.stakers[i].history.entries.clone() };
                assert(history.entries@ =~= s0[i as int].history.entries@);
                history.record(height, value);
                let staker = Staker { addr: self.stakers[i].addr.clone(), history };
                let ghost x = staker;
                proof {
                    lemma_sum_update(s0, i as int, x);
                    assert forall|a: Seq<char>| true implies history_of(s0.update(i as int, x), a) == (if a == s0[i as int].addr@ {
                        x.history.entries@
                    } else {
                        history_of(s0, a)
                    }) by {
                        lemma_history_of_update(s0, i as int, x, a);
                    }
                }
                self.stakers.set(i, staker);
            },
            None => {
                proof {
                    lemma_history_of_absent(s0, addr@);
                }
                let mut history = History::new();
                history.record(height, value);
                self.stakers.push(Staker { addr: addr.clone(), history });
                assert(self.stakers@.drop_last() =~= s0);
            },
        }
        self.total.record(height, new_total);
    }

    pub open spec fn is_staker(&self, a: Seq<char>) -> bool {
        exists|j: int| 0 <= j < self.stakers@.len() && (#[trigger] self.stakers@[j]).addr@ == a
    }

    /// The first holder, in address order, after `bound`.
    fn next_after(&self, bound: &Option<String>) -> (r: Option<usize>)
        ensures
            r matches Some(j) ==> {
                &&& j < self.stakers@.len()
                &&& after_bound(self.stakers@[j as int].addr@, *bound)
                &&& forall|k: int| 0 <= k < self.stakers@.len() && after_bound((#[trigger] self.stakers@[k]).addr@, *bound)
                    ==> !addr_lt(self.stakers@[k].addr@, self.stakers@[j as int].addr@)
            },
            r is None ==> forall|k: int| 0 <= k < self.stakers@.len() ==> !after_bound((#[trigger] self.stakers@[k]).addr@, *bound),
    {
        let mut best: Option<usize> = None;
        let mut i: usize = 0;
        while i < self.stakers.len()
            invariant
                i <= self.stakers@.len(),
                best is Some ==> {
                    let b = best.unwrap() as int;
                    &&& b < i
                    &&& after_bound(self.stakers@[b].addr@, *bound)
                    &&& forall|k: int| 0 <= k < i && after_bound((#[trigger] self.stakers@[k]).addr@, *bound)
                        ==> !addr_lt(self.stakers@[k].addr@, self.stakers@[b].addr@)
                },
                best is None ==> forall|k: int| 0 <= k < i ==> !after_bound((#[trigger] self.stakers@[k]).addr@, *bound),
            decreases self.stakers@.len() - i,
        {
            if is_after(&self.stakers[i].addr, bound) {
                match best {
                    None => {
                        best = Some(i);
                        proof {
                            crate::order::lemma_lt_irreflexive(self.stakers@[i as int].addr@);
                        }
                    },
                    Some(b) => {
                        if addr_less(&self.stakers[i].addr, &self.stakers[b].addr) {
                            best = Some(i);
                            proof {
                                assert forall|k: int| 0 <= k < i + 1 && after_bound((#[trigger] self.stakers@[k]).addr@, *bound)
                                    implies !addr_lt(self.stakers@[k].addr@, self.stakers@[i as int].addr@) by {
                                    if k < i && addr_lt(self.stakers@[k].addr@, self.stakers@[i as int].addr@) {
                                        lemma_lt_transitive(self.stakers@[k].addr@, self.stakers@[i as int].addr@, self.stakers@[b as int].addr@);
                                    }
                                    if k == i {
                                        crate::order::lemma_lt_irreflexive(self.stakers@[k].addr@);
                                    }
                                }
                            }
                        }
                    },
                }
            }
            i = i + 1;
        }
        best
    }

    /// `out` lists, in address order, holders after `start` with their current
    /// shares, ending at `bound`, and holds every holder after `start` up to `bound`.
    pub open spec fn listed(&self, out: Seq<StakerBalance>, start: Option<String>, bound: Option<String>) -> bool {
        &&& forall|i: int| 0 <= i < out.len() ==> {
            &&& self.is_staker((#[trigger] out[i]).address@)
            &&& out[i].balance == self.shares_of(out[i].address@)
            &&& after_bound(out[i].address@, start)
        }
        &&& forall|i: int| 0 <= i < out.len() - 1 ==> addr_lt((#[trigger] out[i]).address@, out[i + 1].address@)
        &&& out.len() == 0 ==> bound == start
        &&& out.len() > 0 ==> (bound matches Some(b) && b@ == out[out.len() - 1].address@)
        &&& forall|j: int| 0 <= j < self.stakers@.len() && after_bound((#[trigger] self.stakers@[j]).addr@, start)
            && !after_bound(self.stakers@[j].addr@, bound)
            ==> exists|i: int| 0 <= i < out.len() && (#[trigger] out[i]).address@ == self.stakers@[j].addr@
    }

    proof fn lemma_listed_step(&self, out: Seq<StakerBalance>, start: Option<String>, bound: Option<String>, j: int,
        next: Seq<StakerBalance>, next_bound: Option<String>)
        requires
            self.wf(),
            self.listed(out, start, bound),
            0 <= j < self.stakers@.len(),
            after_bound(self.stakers@[j].addr@, bound),
            forall|k: int| 0 <= k < self.stakers@.len() && after_bound((#[trigger] self.stakers@[k]).addr@, bound)
                ==> !addr_lt(self.stakers@[k].addr@, self.stakers@[j].addr@),
            next.len() == out.len() + 1,
            next.drop_last() == out,
            next.last().address@ == self.stakers@[j].addr@,
            next.last().balance == latest_of(self.stakers@[j].history.entries@),
            next_bound matches Some(b) && b@ == self.stakers@[j].addr@,
        ensures
            self.listed(next, start, next_bound),
            count_after(self.stakers@, next_bound) < count_after(self.stakers@, bound),
    {
        let m = self.stakers@[j].addr@;
        lemma_history_of_index(self.stakers@, j);
        assert(forall|i: int| 0 <= i < out.len() ==> #[trigger] next[i] == out[i]);
        if out.len() > 0 && start is Some {
            lemma_lt_transitive(start.unwrap()@, out[out.len() - 1].address@, m);
        }
        assert(self.is_staker(next[next.len() - 1].address@));
        assert forall|k: int| 0 <= k < self.stakers@.len() && after_bound((#[trigger] self.stakers@[k]).addr@, next_bound)
            implies after_bound(self.stakers@[k].addr@, bound) by {
            if bound is Some {
                lemma_lt_transitive(bound.unwrap()@, m, self.stakers@[k].addr@);
            }
        }
        crate::order::lemma_lt_irreflexive(m);
        lemma_count_after_decreases(self.stakers@, bound, next_bound, j);
        assert forall|k: int| 0 <= k < self.stakers@.len() && after_bound((#[trigger] self.stakers@[k]).addr@, start)
            && !after_bound(self.stakers@[k].addr@, next_bound)
            implies exists|i: int| 0 <= i < next.len() && (#[trigger] next[i]).address@ == self.stakers@[k].addr@ by {
            let a = self.stakers@[k].addr@;
            if after_bound(a, bound) {
                if a != m {
                    lemma_lt_total(a, m);
                }
                assert(next[next.len() - 1].address@ == a);
            } else {
                let i0 = choose|i: int| 0 <= i < out.len() && (#[trigger] out[i]).address@ == a;
                assert(next[i0] == out[i0]);
            }
        }
    }

    /// Holders with their current shares, in address order, starting after
    /// `start_after`, at most `limit` of them (all when there is no limit).
    pub fn list_stakers(&self, start_after: &Option<String>, limit: Option<u32>) -> (r: Vec<StakerBalance>)
        requires
            self.wf(),
        ensures
            limit matches Some(l) ==> (r@.len() <= l),
            forall|i: int| 0 <= i < r@.len() ==> {
                &&& self.is_staker((#[trigger] r@[i]).address@)
                &&& r@[i].balance == self.shares_of(r@[i].address@)
                &&& after_bound(r@[i].address@, *start_after)
            },
            forall|i: int| 0 <= i < r@.len() - 1 ==> addr_lt((#[trigger] r@[i]).address@, r@[i + 1].address@),
            forall|j: int| 0 <= j < self.stakers@.len() && after_bound((#[trigger] self.stakers@[j]).addr@, *start_after) ==> {
                ||| exists|i: int| 0 <= i < r@.len() && (#[trigger] r@[i]).address@ == self.stakers@[j].addr@
                ||| (limit matches Some(l) && r@.len() == l && r@.len() > 0
                    && addr_lt(r@[r@.len() - 1].address@, self.stakers@[j].addr@))
                ||| limit == Some(0u32)
            },
    {
        let bounded = limit.is_some();
        let cap: usize = match limit {
            Some(l) => l as usize,
            None => 0,
        };
        let mut out: Vec<StakerBalance> = Vec::new();
        let mut bound: Option<String> = match start_after {
            Some(b) => Some(b.clone()),
            None => None,
        };
        let mut done = false;
        while !done && (!bounded || out.len() < cap)
            invariant
                self.wf(),
                bounded == limit is Some,
                limit matches Some(l) ==> (cap == l && out@.len() <= cap),
                done ==> forall|k: int| 0 <= k < self.stakers@.len() ==> !after_bound((#[trigger] self.stakers@[k]).addr@, bound),
                self.listed(out@, *start_after, bound),
            decreases count_after(self.stakers@, bound) + if done { 0nat } else { 1nat },
        {
            match self.next_after(&bound) {
                None => {
                    done = true;
                },
                Some(j) => {
                    let ghost old_out = out@;
                    let ghost old_bound = bound;
                    proof {
                        lemma_history_of_index(self.stakers@, j as int);
                    }
                    let address = self.stakers[j].addr.clone();
                    let balance = self.stakers[j].history.latest();
                    out.push(StakerBalance { address, balance });
                    bound = Some(self.stakers[j].addr.clone());
                    proof {
                        assert(out@.drop_last() =~= old_out);
                        self.lemma_listed_step(old_out, *start_after, old_bound, j as int, out@, bound);
                    }
                },
            }
        }
        proof {
            assert forall|j: int| 0 <= j < self.stakers@.len() && after_bound((#[trigger] self.stakers@[j]).addr@, *start_after) implies {
                ||| exists|i: int| 0 <= i < out@.len() && (#[trigger] out@[i]).address@ == self.stakers@[j].addr@
                ||| (limit matches Some(l) && out@.len() == l && out@.len() > 0
                    && addr_lt(out@[out@.len() - 1].address@, self.stakers@[j].addr@))
                ||| limit == Some(0u32)
            } by {
                if out@.len() > 0 && after_bound(self.stakers@[j].addr@, bound) {
                    assert(addr_lt(out@[out@.len() - 1].address@, self.stakers@[j].addr@));
                }
            }
        }
        out
    }

    /// Nothing read at a height below `height` differs between the two ledgers.
    pub open spec fn past_unchanged(&self, later: &Ledger, height: u64) -> bool {
        &&& forall|a: Seq<char>, h: u64| h < height ==> #[trigger] later.shares_of_at(a, h) == self.shares_of_at(a, h)
        &&& forall|h: u64| h < height ==> #[trigger] later.total_at(h) == self.total_at(h)
    }

    proof fn lemma_writes_keep_past(&self, later: &Ledger, holder: Seq<char>, height: u64, value: u128, total: u128)
        requires
            later.total.entries@ == self.total.entries@.push(Snapshot { height, value: total }),
            later.history(holder) == self.history(holder).push(Snapshot { height, value }),
            forall|a: Seq<char>| a != holder ==> later.history(a) == self.history(a),
        ensures
            self.past_unchanged(later, height),
    {
        assert forall|a: Seq<char>, h: u64| h < height implies #[trigger] later.shares_of_at(a, h) == self.shares_of_at(a, h) by {
            if a == holder {
                lemma_past_snapshot_stable(self.history(holder), Snapshot { height, value }, h);
            }
        }
        assert forall|h: u64| h < height implies #[trigger] later.total_at(h) == self.total_at(h) by {
            lemma_past_snapshot_stable(self.total.entries@, Snapshot { height, value: total }, h);
        }
    }

    /// Takes a deposit of `amount` from `holder` at `height` and issues shares for it.
    pub fn deposit(&mut self, holder: &String, amount: u128, height: u64) -> (r: Result<u128, ContractError>)
        requires
            old(self).wf(),
            old(self).height <= height,
        ensures
            r == old(self).deposit_outcome(holder@, amount),
            final(self).wf(),
            r is Err ==> *final(self) == *old(self),
            r matches Ok(issued) ==> old(self).deposit_effect(&*final(self), holder@, amount, height, issued),
    {
        let total = self.total.latest();
        let issued: u128 = if total == 0 || self.balance == 0 {
            amount
        } else {
            match total.checked_mul(amount) {
                Some(p) => p / self.balance,
                None => {
                    return Err(ContractError::Overflow);
                },
            }
        };
        let held = self.shares(holder);
        let new_held = match held.checked_add(issued) {
            Some(v) => v,
            None => {
                return Err(ContractError::Overflow);
            },
        };
        let new_total = match total.checked_add(issued) {
            Some(v) => v,
            None => {
                return Err(ContractError::Overflow);
            },
        };
        let new_balance = match self.balance.checked_add(amount) {
            Some(v) => v,
            None => {
                return Err(ContractError::Overflow);
            },
        };
        let ghost before = *self;
        self.write_shares(holder, new_held, new_total, height);
        self.balance = new_balance;
        proof {
            before.lemma_writes_keep_past(&*self, holder@, height, new_held, new_total);
        }
        Ok(issued)
    }

    /// What a withdrawal would release, without making it.
    pub fn preview_withdraw(&self, holder: &String, shares: u128) -> (r: Result<u128, ContractError>)
        requires
            self.wf(),
        ensures
            r == self.withdraw_outcome(holder@, shares),
    {
        let total = self.total.latest();
        if shares == 0 || total == 0 {
            return Err(ContractError::InvalidUnstakeAmount);
        }
        let product = match shares.checked_mul(self.balance) {
            Some(p) => p,
            None => {
                return Err(ContractError::Overflow);
            },
        };
        if shares > self.shares(holder) {
            return Err(ContractError::InvalidUnstakeAmount);
        }
        Ok(product / total)
    }

    /// Burns `shares` of `holder` at `height` and takes their value out of the balance.
    pub fn withdraw(&mut self, holder: &String, shares: u128, height: u64) -> (r: Result<u128, ContractError>)
        requires
            old(self).wf(),
            old(self).height <= height,
        ensures
            r == old(self).withdraw_outcome(holder@, shares),
            final(self).wf(),
            r is Err ==> *final(self) == *old(self),
            r matches Ok(value) ==> old(self).withdraw_effect(&*final(self), holder@, shares, height, value),
    {
        let total = self.total.latest();
        if shares == 0 || total == 0 {
            return Err(ContractError::InvalidUnstakeAmount);
        }
        let product = match shares.checked_mul(self.balance) {
            Some(p) => p,
            None => {
                return Err(ContractError::Overflow);
            },
        };
        let held = self.shares(holder);
        if shares > held {
            return Err(ContractError::InvalidUnstakeAmount);
        }
        let value = product / total;
        proof {
            lemma_latest_le_sum(self.stakers@, holder@);
            lemma_part_of_whole(shares as int, self.balance as int, total as int);
        }
        let ghost before = *self;
        self.write_shares(holder, held - shares, total - shares, height);
        self.balance = self.balance - value;
        proof {
            before.lemma_writes_keep_past(&*self, holder@, height, (held - shares) as u128, (total - shares) as u128);
        }
        Ok(value)
    }

    /// Adds `amount` to the balance without issuing shares.
    pub fn fund(&mut self, amount: u128) -> (r: Result<(), ContractError>)
        requires
            old(self).wf(),
        ensures
            final(self).wf(),
            old(self).balance + amount <= u128::MAX <==> r is Ok,
            r is Err ==> r == Err::<(), ContractError>(ContractError::Overflow) && *final(self) == *old(self),
            r is Ok ==> *final(self) == (Ledger { balance: (old(self).balance + amount) as u128, ..*old(self) }),
    {
        match self.balance.checked_add(amount) {
            Some(v) => {
                self.balance = v;
                Ok(())
            },
            None => Err(ContractError::Overflow),
        }
    }

    /// The value of `addr`'s shares: `floor(shares * balance / total)`, or 0 when any
    /// of the three is 0; an error when the product overflows.
    pub open spec fn value_outcome(&self, addr: Seq<char>) -> Result<u128, ContractError> {
        let (b, s, t) = (self.balance, self.shares_of(addr), self.total_shares());
        if b == 0 || s == 0 || t == 0 {
            Ok(0)
        } else if s * b > u128::MAX {
            Err(ContractError::Overflow)
        } else {
            Ok((s * b / (t as int)) as u128)
        }
    }

    pub fn staked_value(&self, addr: &String) -> (r: Result<u128, ContractError>)
        requires
            self.wf(),
        ensures
            r == self.value_outcome(addr@),
    {
        let balance = self.balance;
        let staked = self.shares(addr);
        let total = self.total.latest();
        if balance == 0 || staked == 0 || total == 0 {
            return Ok(0);
        }
        match staked.checked_mul(balance) {
            Some(p) => Ok(p / total),
            None => Err(ContractError::Overflow),
        }
    }

}

/// In a well-formed ledger the holders' latest shares add up to the latest total;
/// `deposit` and `withdraw` keep the ledger well formed, so this holds after any
/// sequence of them.
pub proof fn lemma_share_conservation(l: Ledger)
    requires
        l.wf(),
    ensures
        sum_latest(l.stakers@) == l.total_shares(),
        forall|a: Seq<char>| #[trigger] l.shares_of(a) <= l.total_shares(),
{
    assert forall|a: Seq<char>| #[trigger] l.shares_of(a) <= l.total_shares() by {
        lemma_latest_le_sum(l.stakers@, a);
    }
}

/// While no shares are outstanding, a deposit issues exactly its amount in shares
/// (unless the held balance would overflow).
pub proof fn lemma_bootstrap_deposit(l: Ledger, holder: Seq<char>, amount: u128)
    requires
        l.wf(),
        l.total_shares() == 0,
        l.balance + amount <= u128::MAX,
    ensures
        l.deposit_outcome(holder, amount) == Ok::<u128, ContractError>(amount),
{
    lemma_latest_le_sum(l.stakers@, holder);
}

/// Issuance rounds down: the shares issued are worth no more than the deposit, and
/// one share more would be worth more than it.
pub proof fn lemma_deposit_rounds_down(l: Ledger, holder: Seq<char>, amount: u128)
    requires
        l.total_shares() > 0,
        l.balance > 0,
        l.deposit_outcome(holder, amount) is Ok,
    ensures
        ({
            let issued = l.deposit_outcome(holder, amount).unwrap();
            &&& issued * l.balance <= l.total_shares() * amount
            &&& l.total_shares() * amount < (issued + 1) * l.balance
        }),
{
    let t = l.total_shares() as int;
    let b = l.balance as int;
    let a = amount as int;
    let q = (t * a) / b;
    vstd::arithmetic::div_mod::lemma_fundamental_div_mod(t * a, b);
    vstd::arithmetic::div_mod::lemma_mod_bound(t * a, b);
    vstd::arithmetic::mul::lemma_mul_is_commutative(b, q);
    vstd::arithmetic::mul::lemma_mul_is_distributive_add_other_way(b, q, 1);
}

/// Withdrawing with no shares outstanding always fails as an invalid amount.
pub proof fn lemma_withdraw_from_empty_fails(l: Ledger, holder: Seq<char>, shares: u128)
    requires
        l.total_shares() == 0,
    ensures
        l.withdraw_outcome(holder, shares) == Err::<u128, ContractError>(ContractError::InvalidUnstakeAmount),
{
}

/// A holder of every outstanding share who withdraws them all receives the whole
/// balance, and leaves no balance and no shares behind (unless the product of
/// shares and balance overflows).
pub proof fn lemma_full_withdrawal(l: Ledger, after: Ledger, holder: Seq<char>, height: u64)
    requires
        l.wf(),
        l.shares_of(holder) == l.total_shares(),
        l.total_shares() > 0,
        l.total_shares() * l.balance <= u128::MAX,
        l.withdraw_effect(&after, holder, l.total_shares(), height, l.balance),
    ensures
        l.withdraw_outcome(holder, l.total_shares()) == Ok::<u128, ContractError>(l.balance),
        after.balance == 0,
        after.total_shares() == 0,
        after.shares_of(holder) == 0,
{
    let t = l.total_shares() as int;
    let b = l.balance as int;
    vstd::arithmetic::mul::lemma_mul_is_commutative(t, b);
    vstd::arithmetic::div_mod::lemma_div_by_multiple(b, t);
}

} // verus!
