//! Proof of existence: an account claims a byte string, recording who holds
//! it and from which block; the holder may revoke the claim or hand it on.
use vstd::prelude::*;
use crate::types::AccountId;

verus! {

/// The event a successful claim operation emits.
#[derive(Debug, PartialEq, Eq)]
pub enum Event {
    /// A claim was created. \[sender, claim\]
    ClaimCreated(AccountId, Vec<u8>),
    /// A claim was revoked. \[sender, claim\]
    ClaimRevoked(AccountId, Vec<u8>),
}

#[derive(Clone, Copy, Debug, PartialEq, Eq, Structural)]
pub enum Error {
    /// The claim is already held.
    ProofAlreadyExist,
    /// The claim is longer than the configured maximum.
    ClaimTooLong,
    /// Nobody holds the claim.
    ClaimNotExist,
    /// The caller does not hold the claim.
    NotClaimOwner,
}

/// The claims held, each with its holder and the block it was recorded in.
pub struct Pallet {
    max_claim_length: u32,
    claim_list: Vec<Vec<u8>>,
    records: Vec<(AccountId, u32)>,
    map: Ghost<Map<Seq<u8>, (AccountId, u32)>>,
}

fn same_bytes(a: &Vec<u8>, b: &Vec<u8>) -> (r: bool)
    ensures
        r == (a@ == b@),
{
    if a.len() != b.len() {
        return false;
    }
    let mut i: usize = 0;
    while i < a.len()
        invariant
            i <= a.len(),
            a.len() == b.len(),
            forall|j: int| 0 <= j < i ==> a@[j] == b@[j],
        decreases a.len() - i,
    {
        if a[i] != b[i] {
            return false;
        }
        i = i + 1;
    }
    assert(a@ =~= b@);
    true
}

fn copy_bytes(a: &Vec<u8>) -> (r: Vec<u8>)
    ensures
        r@ == a@,
{
    let mut out: Vec<u8> = Vec::new();
    let mut i: usize = 0;
    while i < a.len()
        invariant
            i <= a.len(),
            out@ == a@.subrange(0, i as int),
        decreases a.len() - i,
    {
        out.push(a[i]);
        i = i + 1;
        assert(out@ =~= a@.subrange(0, i as int));
    }
    assert(out@ =~= a@);
    out
}

impl Pallet {
    /// The longest claim accepted.
    pub closed spec fn max_length(&self) -> u32 {
        self.max_claim_length
    }

    /// Each claim held, with its holder and block number.
    pub closed spec fn claims(&self) -> Map<Seq<u8>, (AccountId, u32)> {
        self.map@
    }

    /// The two lists run in step, hold each claim once, and are exactly the
    /// claims of the map; no claim is longer than the maximum.
    pub closed spec fn wf(&self) -> bool {
        &&& self.claim_list@.len() == self.records@.len()
        &&& forall|i: int|
            0 <= i < self.claim_list@.len() ==> self.map@.contains_key((#[trigger] self.claim_list@[i])@)
                && self.map@[self.claim_list@[i]@] == self.records@[i]
        &&& forall|c: Seq<u8>|
            #[trigger] self.map@.contains_key(c) ==> c.len() <= self.max_claim_length && exists|i: int|
                0 <= i < self.claim_list@.len() && self.claim_list@[i]@ == c
        &&& forall|i: int, j: int|
            0 <= i < self.claim_list@.len() && 0 <= j < self.claim_list@.len() && i != j
                ==> (#[trigger] self.claim_list@[i])@ != (#[trigger] self.claim_list@[j])@
    }

    /// Why `sender` may not revoke or hand on `claim`, if it may not.
    pub open spec fn holder_error(&self, sender: AccountId, claim: Seq<u8>) -> Option<Error> {
        if claim.len() > self.max_length() {
            Some(Error::ClaimTooLong)
        } else if !self.claims().contains_key(claim) {
            Some(Error::ClaimNotExist)
        } else if self.claims()[claim].0 != sender {
            Some(Error::NotClaimOwner)
        } else {
            None
        }
    }

    /// No claims, accepting claims of up to `max_claim_length` bytes.
    pub fn new(max_claim_length: u32) -> (r: Self)
        ensures
            r.wf(),
            r.max_length() == max_claim_length,
            r.claims() == Map::<Seq<u8>, (AccountId, u32)>::empty(),
    {
        Pallet {
            max_claim_length,
            claim_list: Vec::new(),
            records: Vec::new(),
            map: Ghost(Map::empty()),
        }
    }

    fn find(&self, claim: &Vec<u8>) -> (r: Option<usize>)
        requires
            self.wf(),
        ensures
            match r {
                Some(i) => i < self.claim_list@.len() && self.claim_list@[i as int]@ == claim@,
                None => !self.claims().contains_key(claim@),
            },
    {
        let mut i: usize = 0;
        while i < self.claim_list.len()
            invariant
                i <= self.claim_list@.len(),
                forall|j: int| 0 <= j < i ==> self.claim_list@[j]@ != claim@,
            decreases self.claim_list@.len() - i,
        {
            if same_bytes(&self.claim_list[i], claim) {
                return Some(i);
            }
            i = i + 1;
        }
        None
    }

    /// The holder of `claim` and the block it was recorded in, if it is held.
    pub fn proofs(&self, claim: &Vec<u8>) -> (r: Option<(AccountId, u32)>)
        requires
            self.wf(),
        ensures
            r == (if self.claims().contains_key(claim@) {
                Some(self.claims()[claim@])
            } else {
                None::<(AccountId, u32)>
            }),
    {
        match self.find(claim) {
            Some(i) => Some(self.records[i]),
            None => None,
        }
    }

    /// Records `claim` as held by `sender` from `block_number`. Fails, changing
    /// nothing, where the claim is too long or already held.
    pub fn create_claim(&mut self, sender: AccountId, claim: Vec<u8>, block_number: u32) -> (r: Result<Event, Error>)
        requires
            old(self).wf(),
        ensures
            final(self).wf(),
            final(self).max_length() == old(self).max_length(),
            match r {
                Ok(ev) => {
                    &&& claim@.len() <= old(self).max_length()
                    &&& !old(self).claims().contains_key(claim@)
                    &&& ev is ClaimCreated && ev->ClaimCreated_0 == sender && ev->ClaimCreated_1@ == claim@
                    &&& final(self).claims() == old(self).claims().insert(claim@, (sender, block_number))
                },
                Err(err) => {
                    &&& err == (if claim@.len() > old(self).max_length() {
                        Error::ClaimTooLong
                    } else {
                        Error::ProofAlreadyExist
                    })
                    &&& (claim@.len() > old(self).max_length() || old(self).claims().contains_key(claim@))
                    &&& *final(self) == *old(self)
                },
            },
    {
        if claim.len() > self.max_claim_length as usize {
            return Err(Error::ClaimTooLong);
        }
        if self.find(&claim).is_some() {
            return Err(Error::ProofAlreadyExist);
        }
        let ghost pre = *self;
        let stored = copy_bytes(&claim);
        self.claim_list.push(stored);
        self.records.push((sender, block_number));
        self.map = Ghost(self.map@.insert(claim@, (sender, block_number)));
        proof {
            let n = pre.claim_list@.len() as int;
            assert forall|i: int| 0 <= i < n implies pre.claim_list@[i]@ != claim@ by {
                assert(pre.map@.contains_key(pre.claim_list@[i]@));
            }
            assert(self.claim_list@[n]@ == claim@);
            assert forall|c: Seq<u8>| #[trigger] self.map@.contains_key(c) implies c.len()
                <= self.max_claim_length && exists|i: int|
                0 <= i < self.claim_list@.len() && self.claim_list@[i]@ == c by {
                if c != claim@ {
                    let i = choose|i: int| 0 <= i < pre.claim_list@.len() && pre.claim_list@[i]@ == c;
                    assert(self.claim_list@[i]@ == c);
                }
            }
            assert forall|i: int| 0 <= i < self.claim_list@.len() implies self.map@.contains_key(
                (#[trigger] self.claim_list@[i])@,
            ) && self.map@[self.claim_list@[i]@] == self.records@[i] by {
                if i < n {
                    assert(pre.claim_list@[i]@ != claim@);
                }
            }
        }
        Ok(Event::ClaimCreated(sender, claim))
    }

    /// Removes `claim`, held by `sender`. Fails, changing nothing, where the
    /// claim is too long, not held, or held by another account.
    pub fn revoke_claim(&mut self, sender: AccountId, claim: Vec<u8>) -> (r: Result<Event, Error>)
        requires
            old(self).wf(),
        ensures
            final(self).wf(),
            final(self).max_length() == old(self).max_length(),
            match r {
                Ok(ev) => {
                    &&& old(self).holder_error(sender, claim@) is None
                    &&& ev is ClaimRevoked && ev->ClaimRevoked_0 == sender && ev->ClaimRevoked_1@ == claim@
                    &&& final(self).claims() == old(self).claims().remove(claim@)
                },
                Err(err) => old(self).holder_error(sender, claim@) == Some(err) && *final(self) == *old(self),
            },
    {
        if claim.len() > self.max_claim_length as usize {
            return Err(Error::ClaimTooLong);
        }
        let i = match self.find(&claim) {
            Some(i) => i,
            None => {
                return Err(Error::ClaimNotExist);
            },
        };
        if self.records[i].0 != sender {
            return Err(Error::NotClaimOwner);
        }
        let ghost pre = *self;
        self.claim_list.swap_remove(i);
        self.records.swap_remove(i);
        self.map = Ghost(self.map@.remove(claim@));
        proof {
            let n = pre.claim_list@.len() as int - 1;
            let c = claim@;
            // position in the old lists of the entry now at position `k`
            assert forall|k: int| 0 <= k < n implies #[trigger] self.claim_list@[k] == pre.claim_list@[
                if k == i { n } else { k }
            ] && self.records@[k] == pre.records@[if k == i { n } else { k }] by {}
            assert forall|k: int| 0 <= k < n implies (#[trigger] self.claim_list@[k])@ != c by {
                let pk = if k == i { n } else { k };
                assert(pre.claim_list@[pk]@ != pre.claim_list@[i as int]@);
            }
            assert forall|a: int, b: int|
                0 <= a < n && 0 <= b < n && a != b implies (#[trigger] self.claim_list@[a])@
                != (#[trigger] self.claim_list@[b])@ by {
                let pa = if a == i { n } else { a };
                let pb = if b == i { n } else { b };
                assert(pre.claim_list@[pa]@ != pre.claim_list@[pb]@);
            }
            assert forall|d: Seq<u8>| #[trigger] self.map@.contains_key(d) implies d.len()
                <= self.max_claim_length && exists|k: int|
                0 <= k < self.claim_list@.len() && self.claim_list@[k]@ == d by {
                let k = choose|k: int| 0 <= k < pre.claim_list@.len() && pre.claim_list@[k]@ == d;
                if k == n {
                    assert(self.claim_list@[i as int]@ == d);
                } else {
                    assert(self.claim_list@[k]@ == d);
                }
            }
            assert forall|k: int| 0 <= k < n implies self.map@.contains_key(
                (#[trigger] self.claim_list@[k])@,
            ) && self.map@[self.claim_list@[k]@] == self.records@[k] by {
                let pk = if k == i { n } else { k };
                assert(pre.map@.contains_key(pre.claim_list@[pk]@));
            }
        }
        Ok(Event::ClaimRevoked(sender, claim))
    }

    /// Hands `claim`, held by `sender`, to `dest`, recorded from
    /// `block_number`. Fails, changing nothing, where the claim is too long,
    /// not held, or held by another account.
    pub fn transfer_claim(&mut self, sender: AccountId, claim: Vec<u8>, dest: AccountId, block_number: u32) -> (r: Result<(), Error>)
        requires
            old(self).wf(),
        ensures
            final(self).wf(),
            final(self).max_length() == old(self).max_length(),
            match r {
                Ok(()) => {
                    &&& old(self).holder_error(sender, claim@) is None
                    &&& final(self).claims() == old(self).claims().insert(claim@, (dest, block_number))
                },
                Err(err) => old(self).holder_error(sender, claim@) == Some(err) && *final(self) == *old(self),
            },
    {
        if claim.len() > self.max_claim_length as usize {
            return Err(Error::ClaimTooLong);
        }
        let i = match self.find(&claim) {
            Some(i) => i,
            None => {
                return Err(Error::ClaimNotExist);
            },
        };
        if self.records[i].0 != sender {
            return Err(Error::NotClaimOwner);
        }
        let ghost pre = *self;
        self.records.set(i, (dest, block_number));
        self.map = Ghost(self.map@.insert(claim@, (dest, block_number)));
        proof {
            assert forall|c: Seq<u8>| #[trigger] self.map@.contains_key(c) implies c.len()
                <= self.max_claim_length && exists|k: int|
                0 <= k < self.claim_list@.len() && self.claim_list@[k]@ == c by {
                if c != claim@ {
                    assert(pre.map@.contains_key(c));
                    let k = choose|k: int| 0 <= k < pre.claim_list@.len() && pre.claim_list@[k]@ == c;
                    assert(self.claim_list@[k]@ == c);
                } else {
                    assert(pre.map@.contains_key(pre.claim_list@[i as int]@));
                    assert(self.claim_list@[i as int]@ == c);
                }
            }
            assert forall|k: int| 0 <= k < self.claim_list@.len() implies self.map@.contains_key(
                (#[trigger] self.claim_list@[k])@,
            ) && self.map@[self.claim_list@[k]@] == self.records@[k] by {
                if k != i as int {
                    assert(pre.claim_list@[k]@ != pre.claim_list@[i as int]@);
                }
            }
        }
        Ok(())
    }
}

} // verus!
