//! Deferred withdrawals: per holder, a bounded list of amounts that may be
//! settled once their release point is reached.
use vstd::prelude::*;
use crate::error::ContractError;
use crate::config::{BlockInfo, Expiration, is_expired};

verus! {

/// How many claims one holder may have pending at once.
pub const MAX_CLAIMS: usize = 8;

/// An amount held back until `release_at`.
#[derive(Debug, Clone, Copy, PartialEq, Eq, Structural)]
pub struct Claim {
    pub amount: u128,
    pub release_at: Expiration,
}

/// A claim together with the holder it belongs to.
#[derive(Debug, Clone, PartialEq, Eq)]
pub struct PendingClaim {
    pub holder: String,
    pub claim: Claim,
}

/// The claims of `holder`, oldest first.
pub open spec fn claims_of(s: Seq<PendingClaim>, holder: Seq<char>) -> Seq<Claim>
    decreases s.len(),
{
    if s.len() == 0 {
        Seq::empty()
    } else if s.last().holder@ == holder {
        claims_of(s.drop_last(), holder).push(s.last().claim)
    } else {
        claims_of(s.drop_last(), holder)
    }
}

/// The sum of the claims that have matured in `block`.
pub open spec fn matured_sum(c: Seq<Claim>, block: BlockInfo) -> int
    decreases c.len(),
{
    if c.len() == 0 {
        0
    } else {
        matured_sum(c.drop_last(), block) + if is_expired(c.last().release_at, block) {
            c.last().amount as int
        } else {
            0
        }
    }
}

/// The claims that have not matured in `block`, in their order.
pub open spec fn unmatured(c: Seq<Claim>, block: BlockInfo) -> Seq<Claim>
    decreases c.len(),
{
    if c.len() == 0 {
        Seq::empty()
    } else if is_expired(c.last().release_at, block) {
        unmatured(c.drop_last(), block)
    } else {
        unmatured(c.drop_last(), block).push(c.last())
    }
}

/// A claim with release height `h` does not mature below `h`; from `h` on it
/// matures, and settling it pays its amount and leaves nothing behind.
pub proof fn lemma_claim_matures_at_release(c: Claim, h: u64, block: BlockInfo)
    requires
        c.release_at == Expiration::AtHeight(h),
    ensures
        block.height < h ==> matured_sum(seq![c], block) == 0 && unmatured(seq![c], block) == seq![c],
        block.height >= h ==> matured_sum(seq![c], block) == c.amount && unmatured(seq![c], block).len() == 0,
{
    assert(seq![c].drop_last() =~= Seq::<Claim>::empty());
    assert(Seq::<Claim>::empty().push(c) =~= seq![c]);
    assert(matured_sum(Seq::<Claim>::empty(), block) == 0);
    assert(unmatured(Seq::<Claim>::empty(), block) == Seq::<Claim>::empty());
}

proof fn lemma_claims_step(s: Seq<PendingClaim>, i: int, a: Seq<char>)
    requires
        0 <= i < s.len(),
    ensures
        claims_of(s.subrange(0, i + 1), a) == (if s[i].holder@ == a {
            claims_of(s.subrange(0, i), a).push(s[i].claim)
        } else {
            claims_of(s.subrange(0, i), a)
        }),
{
    assert(s.subrange(0, i + 1).drop_last() =~= s.subrange(0, i));
}

proof fn lemma_push_claim(x: Seq<Claim>, c: Claim, block: BlockInfo)
    ensures
        matured_sum(x.push(c), block) == matured_sum(x, block) + if is_expired(c.release_at, block) {
            c.amount as int
        } else {
            0
        },
        unmatured(x.push(c), block) == (if is_expired(c.release_at, block) {
            unmatured(x, block)
        } else {
            unmatured(x, block).push(c)
        }),
{
    assert(x.push(c).drop_last() =~= x);
}

proof fn lemma_matured_nonneg(x: Seq<Claim>, block: BlockInfo)
    ensures
        matured_sum(x, block) >= 0,
    decreases x.len(),
{
    if x.len() > 0 {
        lemma_matured_nonneg(x.drop_last(), block);
    }
}

/// Every pending claim of every holder.
#[derive(Debug, Clone, PartialEq, Eq)]
pub struct Claims {
    pub pending: Vec<PendingClaim>,
}

impl Claims {
    pub fn new() -> (r: Claims)
        ensures
            r.pending@.len() == 0,
    {
        Claims { pending: Vec::new() }
    }

    pub open spec fn of(&self, holder: Seq<char>) -> Seq<Claim> {
        claims_of(self.pending@, holder)
    }

    /// How many claims `holder` has pending.
    pub fn count(&self, holder: &String) -> (r: usize)
        ensures
            r == self.of(holder@).len(),
    {
        let mut n: usize = 0;
        let mut i: usize = 0;
        while i < self.pending.len()
            invariant
                i <= self.pending@.len(),
                n == claims_of(self.pending@.subrange(0, i as int), holder@).len(),
                n <= i,
            decreases self.pending@.len() - i,
        {
            assert(self.pending@.subrange(0, i + 1).drop_last() =~= self.pending@.subrange(0, i as int));
            if self.pending[i].holder == *holder {
                n = n + 1;
            }
            i = i + 1;
        }
        assert(self.pending@.subrange(0, i as int) =~= self.pending@);
        n
    }

    /// The pending claims of `holder`, oldest first.
    pub fn list(&self, holder: &String) -> (r: Vec<Claim>)
        ensures
            r@ == self.of(holder@),
    {
        let mut out: Vec<Claim> = Vec::new();
        let mut i: usize = 0;
        while i < self.pending.len()
            invariant
                i <= self.pending@.len(),
                out@ == claims_of(self.pending@.subrange(0, i as int), holder@),
            decreases self.pending@.len() - i,
        {
            assert(self.pending@.subrange(0, i + 1).drop_last() =~= self.pending@.subrange(0, i as int));
            if self.pending[i].holder == *holder {
                out.push(self.pending[i].claim);
            }
            i = i + 1;
        }
        assert(self.pending@.subrange(0, i as int) =~= self.pending@);
        out
    }

    /// Queues `amount` for `holder` until `release_at`.
    pub fn create(&mut self, holder: &String, amount: u128, release_at: Expiration)
        ensures
            final(self).of(holder@) == old(self).of(holder@).push(Claim { amount, release_at }),
            forall|a: Seq<char>| a != holder@ ==> #[trigger] final(self).of(a) == old(self).of(a),
    {
        self.pending.push(PendingClaim { holder: holder.clone(), claim: Claim { amount, release_at } });
        assert(self.pending@.drop_last() =~= old(self).pending@);
    }

    /// What settling `holder`'s claims in `block` pays, or why it fails.
    pub open spec fn settle_outcome(&self, holder: Seq<char>, block: BlockInfo) -> Result<u128, ContractError> {
        let total = matured_sum(self.of(holder), block);
        if total > u128::MAX {
            Err(ContractError::Overflow)
        } else if total == 0 {
            Err(ContractError::NothingToClaim)
        } else {
            Ok(total as u128)
        }
    }

    /// Removes every matured claim of `holder` and returns their sum; the claims
    /// not yet matured stay queued in their order.
    pub fn settle(&mut self, holder: &String, block: &BlockInfo) -> (r: Result<u128, ContractError>)
        ensures
            r == old(self).settle_outcome(holder@, *block),
            r is Err ==> *final(self) == *old(self),
            r is Ok ==> final(self).of(holder@) == unmatured(old(self).of(holder@), *block),
            forall|a: Seq<char>| a != holder@ ==> #[trigger] final(self).of(a) == old(self).of(a),
    {
        let ghost s = self.pending@;
        let mut kept: Vec<PendingClaim> = Vec::new();
        let mut total: u128 = 0;
        let mut overflow = false;
        let mut i: usize = 0;
        while i < self.pending.len()
            invariant
                s == self.pending@,
                i <= s.len(),
                forall|a: Seq<char>| a != holder@ ==> #[trigger] claims_of(kept@, a) == claims_of(s.subrange(0, i as int), a),
                claims_of(kept@, holder@) == unmatured(claims_of(s.subrange(0, i as int), holder@), *block),
                matured_sum(claims_of(s.subrange(0, i as int), holder@), *block) >= 0,
                !overflow ==> total == matured_sum(claims_of(s.subrange(0, i as int), holder@), *block),
                overflow ==> matured_sum(claims_of(s.subrange(0, i as int), holder@), *block) > u128::MAX,
            decreases s.len() - i,
        {
            let ghost pre = s.subrange(0, i as int);
            proof {
                lemma_claims_step(s, i as int, holder@);
                assert forall|a: Seq<char>| a != holder@ implies #[trigger] claims_of(s.subrange(0, i + 1), a) == (if s[i as int].holder@ == a {
                    claims_of(pre, a).push(s[i as int].claim)
                } else {
                    claims_of(pre, a)
                }) by {
                    lemma_claims_step(s, i as int, a);
                }
                lemma_push_claim(claims_of(pre, holder@), s[i as int].claim, *block);
                lemma_matured_nonneg(claims_of(s.subrange(0, i + 1), holder@), *block);
            }
            let p = &self.pending[i];
            if p.holder == *holder && p.claim.release_at.is_expired(block) {
                if !overflow {
                    match total.checked_add(p.claim.amount) {
                        Some(t) => total = t,
                        None => overflow = true,
                    }
                }
            } else {
                let ghost k0 = kept@;
                kept.push(PendingClaim { holder: p.holder.clone(), claim: p.claim });
                assert(kept@.drop_last() =~= k0);
                assert forall|a: Seq<char>| a != holder@ implies #[trigger] claims_of(kept@, a) == (if s[i as int].holder@ == a {
                    claims_of(k0, a).push(s[i as int].claim)
                } else {
                    claims_of(k0, a)
                }) by {
                    assert(kept@.last().holder@ == s[i as int].holder@);
                }
            }
            i = i + 1;
        }
        assert(s.subrange(0, i as int) =~= s);
        if overflow {
            return Err(ContractError::Overflow);
        }
        if total == 0 {
            return Err(ContractError::NothingToClaim);
        }
        self.pending = kept;
        Ok(total)
    }
}

} // verus!
