use std::collections::HashMap;
use vstd::prelude::*;
use crate::balances::{Balances, AccountData, reserved_from, unreserved};
use crate::dna::{gen_dna, gen_gender, crossover, dna_of, gender_of, crossover_of};
use crate::types::{AccountId, Balance, Entropy, Error, Event, Gender, Kitty, KittyIndex};

verus! {

broadcast use vstd::std_specs::hash::group_hash_axioms;

/// The kitty registry: the identifier counter, the kitties by identifier, and
/// for each account the bounded list of the identifiers it owns.
///
/// Identifiers are handed out from zero upwards, so the kitty with identifier
/// `i` is the `i`-th entry of the registry.
pub struct Pallet {
    max_kitty_owned: u32,
    kitty_stake: Balance,
    last_kitty_id: KittyIndex,
    kitties: Vec<Kitty>,
    kitties_owned: HashMap<AccountId, Vec<KittyIndex>>,
}

/// A kitty as minted: the given genetic code and gender, not for sale.
pub open spec fn is_newborn(k: Kitty, dna: Seq<u8>, gender: Gender, owner: AccountId) -> bool {
    &&& k.dna@ == dna
    &&& k.price is None
    &&& k.gender == gender
    &&& k.owner == owner
}

/// `s` without the entry at `i`, the last entry taking its place.
pub open spec fn swap_removed(s: Seq<KittyIndex>, i: int) -> Seq<KittyIndex> {
    s.update(i, s.last()).drop_last()
}

/// The genetic code `mint` gives: the one supplied, else one derived from `e`.
pub open spec fn dna_or_derived(dna: Option<[u8; 16]>, e: Entropy) -> Seq<u8> {
    match dna {
        Some(d) => d@,
        None => dna_of(e),
    }
}

/// The gender `mint` gives: the one supplied, else one derived from `e`.
pub open spec fn gender_or_derived(gender: Option<Gender>, e: Entropy) -> Gender {
    match gender {
        Some(g) => g,
        None => gender_of(e.gender_seed@),
    }
}

impl Pallet {
    /// The most kitties one account may own.
    pub closed spec fn max_owned(&self) -> u32 {
        self.max_kitty_owned
    }

    /// The amount reserved from an account for each kitty it owns.
    pub closed spec fn stake(&self) -> Balance {
        self.kitty_stake
    }

    /// The identifier the next kitty will get.
    pub closed spec fn next_id(&self) -> KittyIndex {
        self.last_kitty_id
    }

    /// The kitties, the one with identifier `i` at position `i`.
    pub closed spec fn registry(&self) -> Seq<Kitty> {
        self.kitties@
    }

    /// The identifiers that `who` owns, in the order of its list.
    pub closed spec fn owned(&self, who: AccountId) -> Seq<KittyIndex> {
        if self.kitties_owned@.contains_key(who) {
            self.kitties_owned@[who]@
        } else {
            Seq::empty()
        }
    }

    /// The counter matches the registry and stays below the largest
    /// identifier; each list is within the cap, has no repeats, and holds
    /// exactly the kitties whose owner is its account.
    pub closed spec fn wf(&self) -> bool {
        &&& self.last_kitty_id < u32::MAX
        &&& self.kitties@.len() == self.last_kitty_id as nat
        &&& forall|who: AccountId| #[trigger] self.owned(who).len() <= self.max_kitty_owned
        &&& forall|who: AccountId| #[trigger] self.owned(who).no_duplicates()
        &&& forall|who: AccountId, j: int|
            0 <= j < self.owned(who).len() ==> (#[trigger] self.owned(who)[j]) < self.last_kitty_id
                && self.kitties@[self.owned(who)[j] as int].owner == who
        &&& forall|i: int|
            0 <= i < self.kitties@.len() ==> self.owned((#[trigger] self.kitties@[i]).owner).contains(
                i as KittyIndex,
            )
    }

    /// A kitty with identifier `id` exists.
    pub open spec fn contains(&self, id: KittyIndex) -> bool {
        (id as nat) < self.registry().len()
    }

    /// The configuration and the counter are those of `other`.
    pub open spec fn same_config(&self, other: &Self) -> bool {
        &&& self.max_owned() == other.max_owned()
        &&& self.stake() == other.stake()
    }

    /// Every account but `a` and `b` owns in `other` what it owns in `self`.
    pub open spec fn same_index_except(&self, other: &Self, a: AccountId, b: AccountId) -> bool {
        forall|who: AccountId| who != a && who != b ==> #[trigger] other.owned(who) == self.owned(who)
    }

    /// Why minting for `owner` fails, if it does: the counter is exhausted, or
    /// the owner's list is full.
    pub open spec fn mint_error(&self, owner: AccountId) -> Option<Error> {
        if self.next_id() + 1 == u32::MAX {
            Some(Error::KittyIndexOverflow)
        } else if self.owned(owner).len() >= self.max_owned() {
            Some(Error::ExceedMaxKittyOwned)
        } else {
            None
        }
    }

    /// `new` is `self` after minting a kitty with this genetic code and gender
    /// for `owner`: it got the identifier `self.next_id()`, which was appended
    /// to the owner's list, and the counter moved up by one.
    pub open spec fn minted(&self, new: &Self, owner: AccountId, dna: Seq<u8>, gender: Gender) -> bool {
        &&& new.same_config(self)
        &&& new.next_id() == self.next_id() + 1
        &&& new.registry().len() == self.registry().len() + 1
        &&& new.registry().drop_last() == self.registry()
        &&& is_newborn(new.registry().last(), dna, gender, owner)
        &&& new.owned(owner) == self.owned(owner).push(self.next_id())
        &&& self.same_index_except(new, owner, owner)
    }

    /// `new` is `self` after kitty `id` went to `to`: its owner is `to`, it is
    /// no longer for sale, and its identifier left the list of the previous
    /// owner (the last entry taking its place) and was appended to that of `to`.
    pub open spec fn moved_to(&self, new: &Self, id: KittyIndex, to: AccountId) -> bool {
        let k = self.registry()[id as int];
        let prev = k.owner;
        &&& new.same_config(self)
        &&& new.next_id() == self.next_id()
        &&& new.registry() == self.registry().update(
            id as int,
            Kitty { dna: k.dna, price: None, gender: k.gender, owner: to },
        )
        &&& exists|i: int|
            0 <= i < self.owned(prev).len() && self.owned(prev)[i] == id && (if prev == to {
                new.owned(to) == swap_removed(self.owned(prev), i).push(id)
            } else {
                new.owned(prev) == swap_removed(self.owned(prev), i) && new.owned(to)
                    == self.owned(to).push(id)
            })
        &&& self.same_index_except(new, prev, to)
    }

    /// An empty registry with the given cap on kitties per account and stake
    /// per kitty.
    pub fn new(max_kitty_owned: u32, kitty_stake: Balance) -> (r: Self)
        ensures
            r.wf(),
            r.max_owned() == max_kitty_owned,
            r.stake() == kitty_stake,
            r.next_id() == 0,
            r.registry() == Seq::<Kitty>::empty(),
            forall|who: AccountId| #[trigger] r.owned(who) == Seq::<KittyIndex>::empty(),
    {
        Pallet {
            max_kitty_owned,
            kitty_stake,
            last_kitty_id: 0,
            kitties: Vec::new(),
            kitties_owned: HashMap::new(),
        }
    }

    fn owned_len(&self, who: AccountId) -> (r: usize)
        ensures
            r == self.owned(who).len(),
    {
        match self.kitties_owned.get(&who) {
            Some(v) => v.len(),
            None => 0,
        }
    }

    /// The identifiers that `who` owns.
    pub fn kitties_owned(&self, who: AccountId) -> (r: Vec<KittyIndex>)
        ensures
            r@ == self.owned(who),
    {
        let mut out: Vec<KittyIndex> = Vec::new();
        match self.kitties_owned.get(&who) {
            Some(v) => {
                let mut i: usize = 0;
                while i < v.len()
                    invariant
                        i <= v.len(),
                        out@ == v@.subrange(0, i as int),
                    decreases v.len() - i,
                {
                    out.push(v[i]);
                    i = i + 1;
                    assert(out@ =~= v@.subrange(0, i as int));
                }
                assert(out@ =~= v@);
            },
            None => {
                assert(out@ =~= Seq::<KittyIndex>::empty());
            },
        }
        out
    }

    fn set_owned(&mut self, who: AccountId, list: Vec<KittyIndex>)
        ensures
            final(self).owned(who) == list@,
            old(self).same_index_except(final(self), who, who),
            final(self).max_kitty_owned == old(self).max_kitty_owned,
            final(self).kitty_stake == old(self).kitty_stake,
            final(self).last_kitty_id == old(self).last_kitty_id,
            final(self).kitties == old(self).kitties,
    {
        self.kitties_owned.insert(who, list);
    }

    /// The identifier after the current one; fails where it would be the
    /// largest `KittyIndex`.
    fn get_next_id(&self) -> (r: Result<KittyIndex, Error>)
        requires
            self.wf(),
        ensures
            r == (if self.next_id() + 1 == u32::MAX {
                Err(Error::KittyIndexOverflow)
            } else {
                Ok((self.next_id() + 1) as KittyIndex)
            }),
    {
        let kitty_id = self.last_kitty_id + 1;
        if kitty_id == KittyIndex::MAX {
            return Err(Error::KittyIndexOverflow);
        }
        Ok(kitty_id)
    }

    /// Mints a kitty for `owner` with the genetic code and gender given, each
    /// derived from `e` where absent. Returns its identifier. Fails, changing
    /// nothing, where the counter is exhausted or the owner's list is full.
    pub fn mint(
        &mut self,
        owner: AccountId,
        dna: Option<[u8; 16]>,
        gender: Option<Gender>,
        e: &Entropy,
    ) -> (r: Result<KittyIndex, Error>)
        requires
            old(self).wf(),
        ensures
            final(self).wf(),
            match r {
                Ok(id) => {
                    &&& old(self).mint_error(owner) is None
                    &&& id == old(self).next_id()
                    &&& old(self).minted(
                        final(self),
                        owner,
                        dna_or_derived(dna, *e),
                        gender_or_derived(gender, *e),
                    )
                },
                Err(err) => old(self).mint_error(owner) == Some(err) && *final(self) == *old(self),
            },
    {
        let kitty_id = self.last_kitty_id;
        let next_id = self.get_next_id()?;
        let mut list = self.kitties_owned(owner);
        if list.len() >= self.max_kitty_owned as usize {
            return Err(Error::ExceedMaxKittyOwned);
        }
        let dna: [u8; 16] = match dna {
            Some(d) => d,
            None => gen_dna(e),
        };
        let gender: Gender = match gender {
            Some(g) => g,
            None => gen_gender(&e.gender_seed),
        };
        let kitty = Kitty { dna, price: None, gender, owner };
        let ghost old_list = list@;
        proof {
            assert forall|j: int| 0 <= j < old_list.len() implies old_list[j] != kitty_id by {
                assert(self.owned(owner)[j] < self.last_kitty_id);
            }
        }
        list.push(kitty_id);
        let ghost pre = *self;
        self.set_owned(owner, list);
        let ghost mid = *self;
        self.kitties.push(kitty);
        self.last_kitty_id = next_id;
        proof {
            assert forall|who: AccountId| #[trigger] self.owned(who) == mid.owned(who) by {}
            assert forall|who: AccountId| who != owner implies #[trigger] self.owned(who) == pre.owned(who) by {
                assert(mid.owned(who) == pre.owned(who));
            }
            assert(self.kitties@.drop_last() =~= pre.kitties@);
            assert forall|who: AccountId, j: int|
                0 <= j < self.owned(who).len() implies (#[trigger] self.owned(who)[j]) < self.last_kitty_id
                && self.kitties@[self.owned(who)[j] as int].owner == who by {
                if who != owner {
                    assert(pre.owned(who)[j] < pre.last_kitty_id);
                } else if j < old_list.len() {
                    assert(pre.owned(who)[j] < pre.last_kitty_id);
                }
            }
            assert forall|i: int| 0 <= i < self.kitties@.len() implies self.owned(
                (#[trigger] self.kitties@[i]).owner,
            ).contains(i as KittyIndex) by {
                if i < pre.kitties@.len() {
                    let o = pre.kitties@[i].owner;
                    assert(pre.owned(o).contains(i as KittyIndex));
                    if o == owner {
                        let j = choose|j: int| 0 <= j < old_list.len() && old_list[j] == i as KittyIndex;
                        assert(self.owned(o)[j] == i as KittyIndex);
                    }
                } else {
                    assert(self.owned(owner)[old_list.len() as int] == kitty_id);
                }
            }
            assert forall|who: AccountId| #[trigger] self.owned(who).no_duplicates() by {
                if who != owner {
                    assert(pre.owned(who).no_duplicates());
                }
            }
        }
        Ok(kitty_id)
    }

    /// Whether kitty `id` exists: `Ok(true)` where `who` owns it.
    pub fn is_kitty_owner(&self, kitty_id: KittyIndex, who: AccountId) -> (r: Result<bool, Error>)
        requires
            self.wf(),
        ensures
            r == (if self.contains(kitty_id) {
                Ok(self.registry()[kitty_id as int].owner == who)
            } else {
                Err(Error::KittyNotExist)
            }),
    {
        if kitty_id as usize >= self.kitties.len() {
            return Err(Error::KittyNotExist);
        }
        Ok(self.kitties[kitty_id as usize].owner == who)
    }

    /// The kitty with identifier `id`.
    pub fn get_kitty(&self, kitty_id: KittyIndex) -> (r: Result<Kitty, Error>)
        requires
            self.wf(),
        ensures
            r == (if self.contains(kitty_id) {
                Ok(self.registry()[kitty_id as int])
            } else {
                Err(Error::KittyNotExist)
            }),
    {
        if kitty_id as usize >= self.kitties.len() {
            return Err(Error::KittyNotExist);
        }
        Ok(self.kitties[kitty_id as usize])
    }

    /// Why moving kitty `id` to `to` fails, if it does: no such kitty, or the
    /// list of `to` is full.
    pub open spec fn move_error(&self, id: KittyIndex, to: AccountId) -> Option<Error> {
        if !self.contains(id) {
            Some(Error::KittyNotExist)
        } else if to != self.registry()[id as int].owner && self.owned(to).len() >= self.max_owned() {
            Some(Error::ExceedMaxKittyOwned)
        } else {
            None
        }
    }

    /// Gives kitty `id` to `to` and takes it off sale. Fails, changing
    /// nothing, where there is no such kitty or the list of `to` is full.
    pub fn transfer_kitty_to(&mut self, kitty_id: KittyIndex, to: AccountId) -> (r: Result<(), Error>)
        requires
            old(self).wf(),
        ensures
            final(self).wf(),
            match r {
                Ok(()) => old(self).move_error(kitty_id, to) is None && old(self).moved_to(final(self), kitty_id, to),
                Err(err) => old(self).move_error(kitty_id, to) == Some(err) && *final(self) == *old(self),
            },
    {
        if kitty_id as usize >= self.kitties.len() {
            return Err(Error::KittyNotExist);
        }
        let mut kitty = self.kitties[kitty_id as usize];
        let prev = kitty.owner;
        if to != prev && self.owned_len(to) >= self.max_kitty_owned as usize {
            return Err(Error::ExceedMaxKittyOwned);
        }
        let mut prev_list = self.kitties_owned(prev);
        proof {
            assert(self.kitties@[kitty_id as int].owner == prev);
            assert(prev_list@.contains(kitty_id));
        }
        let mut ind: usize = 0;
        while ind < prev_list.len() && prev_list[ind] != kitty_id
            invariant
                ind <= prev_list.len(),
                prev_list@.contains(kitty_id),
                forall|j: int| 0 <= j < ind ==> prev_list@[j] != kitty_id,
            decreases prev_list.len() - ind,
        {
            ind = ind + 1;
        }
        let ghost i = ind as int;
        let ghost pre = *self;
        prev_list.swap_remove(ind);
        kitty.owner = to;
        kitty.price = None;
        self.kitties.set(kitty_id as usize, kitty);
        if to == prev {
            prev_list.push(kitty_id);
            self.set_owned(prev, prev_list);
        } else {
            let mut to_list = self.kitties_owned(to);
            to_list.push(kitty_id);
            self.set_owned(prev, prev_list);
            self.set_owned(to, to_list);
        }
        proof {
            lemma_move_keeps_wf(pre, *self, kitty_id, to, i);
        }
        Ok(())
    }

    /// Why `who` may not act on kitty `id`, if it may not: there is no such
    /// kitty, or another account owns it.
    pub open spec fn owner_error(&self, id: KittyIndex, who: AccountId) -> Option<Error> {
        if !self.contains(id) {
            Some(Error::KittyNotExist)
        } else if self.registry()[id as int].owner != who {
            Some(Error::NotKittyOwner)
        } else {
            None
        }
    }

    /// Why `create_kitty` fails, if it does.
    pub open spec fn create_error(&self, ledger: &Balances, sender: AccountId) -> Option<Error> {
        if ledger.account(sender).free < self.stake() {
            Some(Error::NotEnoughBalance)
        } else {
            self.mint_error(sender)
        }
    }

    /// Why `transfer` fails, if it does.
    pub open spec fn transfer_error(
        &self,
        ledger: &Balances,
        from: AccountId,
        to: AccountId,
        id: KittyIndex,
    ) -> Option<Error> {
        if self.owner_error(id, from) is Some {
            self.owner_error(id, from)
        } else if from == to {
            Some(Error::TransferToSelf)
        } else if self.owned(to).len() >= self.max_owned() {
            Some(Error::ExceedMaxKittyOwned)
        } else if ledger.account(to).free < self.stake() {
            Some(Error::NotEnoughBalance)
        } else {
            None
        }
    }

    /// Why `buy_kitty` fails, if it does.
    pub open spec fn buy_error(
        &self,
        ledger: &Balances,
        buyer: AccountId,
        id: KittyIndex,
        bid_price: Balance,
    ) -> Option<Error> {
        let k = self.registry()[id as int];
        let seller = ledger.account(k.owner);
        if !self.contains(id) {
            Some(Error::KittyNotExist)
        } else if k.owner == buyer {
            Some(Error::BuyerIsKittyOwner)
        } else if self.owned(buyer).len() >= self.max_owned() {
            Some(Error::ExceedMaxKittyOwned)
        } else if k.price is None {
            Some(Error::KittyNotForSale)
        } else if k.price->Some_0 > bid_price {
            Some(Error::KittyBidPriceTooLow)
        } else if ledger.account(buyer).free <= bid_price + self.stake() {
            Some(Error::NotEnoughBalance)
        } else if seller.free + seller.reserved + bid_price > u128::MAX {
            Some(Error::BalanceOverflow)
        } else {
            None
        }
    }

    /// Why `breed_kitty` fails, if it does.
    pub open spec fn breed_error(
        &self,
        ledger: &Balances,
        sender: AccountId,
        parent1: KittyIndex,
        parent2: KittyIndex,
    ) -> Option<Error> {
        if self.owner_error(parent1, sender) is Some {
            self.owner_error(parent1, sender)
        } else if self.owner_error(parent2, sender) is Some {
            self.owner_error(parent2, sender)
        } else if ledger.account(sender).free < self.stake() {
            Some(Error::NotEnoughBalance)
        } else {
            self.mint_error(sender)
        }
    }

    fn ensure_owner(&self, kitty_id: KittyIndex, who: AccountId) -> (r: Result<(), Error>)
        requires
            self.wf(),
        ensures
            match r {
                Ok(()) => self.owner_error(kitty_id, who) is None,
                Err(err) => self.owner_error(kitty_id, who) == Some(err),
            },
    {
        match self.is_kitty_owner(kitty_id, who) {
            Ok(true) => Ok(()),
            Ok(false) => Err(Error::NotKittyOwner),
            Err(err) => Err(err),
        }
    }

    fn ensure_can_mint(&self, owner: AccountId) -> (r: Result<(), Error>)
        requires
            self.wf(),
        ensures
            match r {
                Ok(()) => self.mint_error(owner) is None,
                Err(err) => self.mint_error(owner) == Some(err),
            },
    {
        self.get_next_id()?;
        if self.owned_len(owner) >= self.max_kitty_owned as usize {
            return Err(Error::ExceedMaxKittyOwned);
        }
        Ok(())
    }

    /// Creates a kitty for `sender` with a derived genetic code and gender,
    /// reserving the stake from `sender`.
    pub fn create_kitty(&mut self, ledger: &mut Balances, sender: AccountId, e: &Entropy) -> (r: Result<Event, Error>)
        requires
            old(self).wf(),
            old(ledger).wf(),
        ensures
            final(self).wf(),
            final(ledger).wf(),
            match r {
                Ok(ev) => {
                    &&& old(self).create_error(old(ledger), sender) is None
                    &&& ev == Event::Created(sender, old(self).next_id())
                    &&& old(self).minted(final(self), sender, dna_of(*e), gender_of(e.gender_seed@))
                    &&& final(ledger).account(sender) == reserved_from(old(ledger).account(sender), old(self).stake())
                    &&& old(ledger).same_except(final(ledger), sender, sender)
                },
                Err(err) => {
                    &&& old(self).create_error(old(ledger), sender) == Some(err)
                    &&& *final(self) == *old(self)
                    &&& *final(ledger) == *old(ledger)
                },
            },
    {
        let stake = self.kitty_stake;
        if ledger.free_balance(sender) < stake {
            return Err(Error::NotEnoughBalance);
        }
        self.ensure_can_mint(sender)?;
        ledger.reserve(sender, stake)?;
        let kitty_id = self.mint(sender, None, None, e)?;
        Ok(Event::Created(sender, kitty_id))
    }

    /// Sets the ask price of kitty `id`, owned by `sender` (`None`: not for sale).
    pub fn set_price(&mut self, sender: AccountId, kitty_id: KittyIndex, new_price: Option<Balance>) -> (r: Result<Event, Error>)
        requires
            old(self).wf(),
        ensures
            final(self).wf(),
            match r {
                Ok(ev) => {
                    let k = old(self).registry()[kitty_id as int];
                    &&& old(self).owner_error(kitty_id, sender) is None
                    &&& ev == Event::PriceSet(sender, kitty_id, new_price)
                    &&& final(self).same_config(old(self))
                    &&& final(self).next_id() == old(self).next_id()
                    &&& final(self).registry() == old(self).registry().update(
                        kitty_id as int,
                        Kitty { dna: k.dna, price: new_price, gender: k.gender, owner: k.owner },
                    )
                    &&& forall|who: AccountId| #[trigger] final(self).owned(who) == old(self).owned(who)
                },
                Err(err) => old(self).owner_error(kitty_id, sender) == Some(err) && *final(self) == *old(self),
            },
    {
        self.ensure_owner(kitty_id, sender)?;
        let mut kitty = self.kitties[kitty_id as usize];
        kitty.price = new_price;
        let ghost pre = *self;
        self.kitties.set(kitty_id as usize, kitty);
        proof {
            assert forall|who: AccountId| #[trigger] self.owned(who) == pre.owned(who) by {}
            assert forall|who: AccountId, j: int|
                0 <= j < self.owned(who).len() implies (#[trigger] self.owned(who)[j]) < self.last_kitty_id
                    && self.kitties@[self.owned(who)[j] as int].owner == who by {
                assert(pre.owned(who)[j] < pre.last_kitty_id);
            }
            assert forall|i: int| 0 <= i < self.kitties@.len() implies self.owned(
                (#[trigger] self.kitties@[i]).owner,
            ).contains(i as KittyIndex) by {
                assert(pre.owned(pre.kitties@[i].owner).contains(i as KittyIndex));
            }
        }
        Ok(Event::PriceSet(sender, kitty_id, new_price))
    }

    /// Gives kitty `id`, owned by `from`, to `to`; the stake moves from `from`
    /// to `to` and the kitty is no longer for sale.
    pub fn transfer(&mut self, ledger: &mut Balances, from: AccountId, to: AccountId, kitty_id: KittyIndex) -> (r: Result<Event, Error>)
        requires
            old(self).wf(),
            old(ledger).wf(),
        ensures
            final(self).wf(),
            final(ledger).wf(),
            match r {
                Ok(ev) => {
                    &&& old(self).transfer_error(old(ledger), from, to, kitty_id) is None
                    &&& ev == Event::Transferred(from, to, kitty_id)
                    &&& old(self).moved_to(final(self), kitty_id, to)
                    &&& final(ledger).account(to) == reserved_from(old(ledger).account(to), old(self).stake())
                    &&& final(ledger).account(from) == unreserved(old(ledger).account(from), old(self).stake())
                    &&& old(ledger).same_except(final(ledger), from, to)
                },
                Err(err) => {
                    &&& old(self).transfer_error(old(ledger), from, to, kitty_id) == Some(err)
                    &&& *final(self) == *old(self)
                    &&& *final(ledger) == *old(ledger)
                },
            },
    {
        self.ensure_owner(kitty_id, from)?;
        if from == to {
            return Err(Error::TransferToSelf);
        }
        if self.owned_len(to) >= self.max_kitty_owned as usize {
            return Err(Error::ExceedMaxKittyOwned);
        }
        let stake = self.kitty_stake;
        ledger.reserve(to, stake)?;
        ledger.unreserve(from, stake);
        self.transfer_kitty_to(kitty_id, to)?;
        Ok(Event::Transferred(from, to, kitty_id))
    }

    /// `buyer` buys kitty `id` at `bid_price`, which must reach its ask price:
    /// the price goes to the seller, the stake moves from the seller to the
    /// buyer, and the kitty is no longer for sale.
    pub fn buy_kitty(&mut self, ledger: &mut Balances, buyer: AccountId, kitty_id: KittyIndex, bid_price: Balance) -> (r: Result<Event, Error>)
        requires
            old(self).wf(),
            old(ledger).wf(),
        ensures
            final(self).wf(),
            final(ledger).wf(),
            match r {
                Ok(ev) => {
                    let seller = old(self).registry()[kitty_id as int].owner;
                    let s = unreserved(old(ledger).account(seller), old(self).stake());
                    &&& old(self).buy_error(old(ledger), buyer, kitty_id, bid_price) is None
                    &&& ev == Event::Bought(buyer, seller, kitty_id, bid_price)
                    &&& old(self).moved_to(final(self), kitty_id, buyer)
                    &&& final(ledger).account(buyer) == (AccountData {
                        free: (old(ledger).account(buyer).free - old(self).stake() - bid_price) as u128,
                        reserved: (old(ledger).account(buyer).reserved + old(self).stake()) as u128,
                    })
                    &&& final(ledger).account(seller) == (AccountData {
                        free: (s.free + bid_price) as u128,
                        reserved: s.reserved,
                    })
                    &&& old(ledger).same_except(final(ledger), buyer, seller)
                },
                Err(err) => {
                    &&& old(self).buy_error(old(ledger), buyer, kitty_id, bid_price) == Some(err)
                    &&& *final(self) == *old(self)
                    &&& *final(ledger) == *old(ledger)
                },
            },
    {
        let kitty = self.get_kitty(kitty_id)?;
        if kitty.owner == buyer {
            return Err(Error::BuyerIsKittyOwner);
        }
        if self.owned_len(buyer) >= self.max_kitty_owned as usize {
            return Err(Error::ExceedMaxKittyOwned);
        }
        let seller = kitty.owner;
        match kitty.price {
            Some(ask_price) => {
                if ask_price > bid_price {
                    return Err(Error::KittyBidPriceTooLow);
                }
            },
            None => {
                return Err(Error::KittyNotForSale);
            },
        }
        let stake = self.kitty_stake;
        let buyer_balance = ledger.free_balance(buyer);
        if bid_price > Balance::MAX - stake || buyer_balance <= bid_price + stake {
            return Err(Error::NotEnoughBalance);
        }
        let s = ledger.account_data(seller);
        if bid_price > Balance::MAX - s.free - s.reserved {
            return Err(Error::BalanceOverflow);
        }
        ledger.reserve(buyer, stake)?;
        ledger.unreserve(seller, stake);
        ledger.transfer(buyer, seller, bid_price)?;
        self.transfer_kitty_to(kitty_id, buyer)?;
        Ok(Event::Bought(buyer, seller, kitty_id, bid_price))
    }

    /// The offspring's genetic code for parents `parent1` and `parent2`: their
    /// crossover under a mask derived from `e`.
    pub fn breed_dna(&self, parent1: KittyIndex, parent2: KittyIndex, e: &Entropy) -> (r: Result<[u8; 16], Error>)
        requires
            self.wf(),
        ensures
            r is Err <==> !self.contains(parent1) || !self.contains(parent2),
            r is Err ==> r == Err::<[u8; 16], Error>(Error::KittyNotExist),
            r is Ok ==> r->Ok_0@ == crossover_of(
                dna_of(*e),
                self.registry()[parent1 as int].dna@,
                self.registry()[parent2 as int].dna@,
            ),
    {
        let dna1 = self.get_kitty(parent1)?.dna;
        let dna2 = self.get_kitty(parent2)?.dna;
        let mask = gen_dna(e);
        Ok(crossover(&mask, &dna1, &dna2))
    }

    /// `sender` breeds its kitties `parent1` and `parent2`: a new kitty owned
    /// by `sender`, with their crossover as its genetic code and a derived
    /// gender; the stake is reserved from `sender`.
    pub fn breed_kitty(
        &mut self,
        ledger: &mut Balances,
        sender: AccountId,
        parent1: KittyIndex,
        parent2: KittyIndex,
        e: &Entropy,
    ) -> (r: Result<Event, Error>)
        requires
            old(self).wf(),
            old(ledger).wf(),
        ensures
            final(self).wf(),
            final(ledger).wf(),
            match r {
                Ok(ev) => {
                    &&& old(self).breed_error(old(ledger), sender, parent1, parent2) is None
                    &&& ev == Event::BredSuccess(sender, old(self).next_id(), parent1, parent2)
                    &&& old(self).minted(
                        final(self),
                        sender,
                        crossover_of(
                            dna_of(*e),
                            old(self).registry()[parent1 as int].dna@,
                            old(self).registry()[parent2 as int].dna@,
                        ),
                        gender_of(e.gender_seed@),
                    )
                    &&& final(ledger).account(sender) == reserved_from(old(ledger).account(sender), old(self).stake())
                    &&& old(ledger).same_except(final(ledger), sender, sender)
                },
                Err(err) => {
                    &&& old(self).breed_error(old(ledger), sender, parent1, parent2) == Some(err)
                    &&& *final(self) == *old(self)
                    &&& *final(ledger) == *old(ledger)
                },
            },
    {
        self.ensure_owner(parent1, sender)?;
        self.ensure_owner(parent2, sender)?;
        let stake = self.kitty_stake;
        if ledger.free_balance(sender) < stake {
            return Err(Error::NotEnoughBalance);
        }
        self.ensure_can_mint(sender)?;
        let new_dna = self.breed_dna(parent1, parent2, e)?;
        ledger.reserve(sender, stake)?;
        let kitty_id = self.mint(sender, Some(new_dna), None, e)?;
        Ok(Event::BredSuccess(sender, kitty_id, parent1, parent2))
    }

    /// The identifier the next kitty will get.
    pub fn last_kitty_id(&self) -> (r: KittyIndex)
        ensures
            r == self.next_id(),
    {
        self.last_kitty_id
    }

    /// The kitty with identifier `id`, if there is one.
    pub fn kitties(&self, kitty_id: KittyIndex) -> (r: Option<Kitty>)
        ensures
            r == (if self.contains(kitty_id) {
                Some(self.registry()[kitty_id as int])
            } else {
                None::<Kitty>
            }),
    {
        if (kitty_id as usize) < self.kitties.len() {
            Some(self.kitties[kitty_id as usize])
        } else {
            None
        }
    }

    /// The most kitties one account may own.
    pub fn max_kitty_owned(&self) -> (r: u32)
        ensures
            r == self.max_owned(),
    {
        self.max_kitty_owned
    }

    /// The amount reserved from an account for each kitty it owns.
    pub fn kitty_stake(&self) -> (r: Balance)
        ensures
            r == self.stake(),
    {
        self.kitty_stake
    }
}


/// A minted kitty gets an identifier that no kitty had and no list held, and
/// the kitties already there keep theirs: identifiers are never reused.
pub proof fn lemma_minted_id_is_fresh(
    before: Pallet,
    after: Pallet,
    owner: AccountId,
    dna: Seq<u8>,
    gender: Gender,
)
    requires
        before.wf(),
        before.minted(&after, owner, dna, gender),
    ensures
        !before.contains(before.next_id()),
        after.contains(before.next_id()),
        after.next_id() > before.next_id(),
        forall|who: AccountId| !(#[trigger] before.owned(who)).contains(before.next_id()),
        forall|id: KittyIndex|
            #[trigger] before.contains(id) ==> after.registry()[id as int] == before.registry()[id as int],
{
    assert forall|who: AccountId| !(#[trigger] before.owned(who)).contains(before.next_id()) by {
        if before.owned(who).contains(before.next_id()) {
            let j = choose|j: int| 0 <= j < before.owned(who).len() && before.owned(who)[j] == before.next_id();
            assert(before.owned(who)[j] < before.last_kitty_id);
        }
    }
    assert forall|id: KittyIndex| #[trigger] before.contains(id) implies after.registry()[id as int]
        == before.registry()[id as int] by {
        assert(after.registry().drop_last()[id as int] == after.registry()[id as int]);
    }
}

/// A kitty's identifier stands in exactly one account's list: its owner's,
/// and there only once.
pub proof fn lemma_single_owner(p: Pallet, a: AccountId, id: KittyIndex)
    requires
        p.wf(),
        p.owned(a).contains(id),
    ensures
        p.contains(id),
        p.registry()[id as int].owner == a,
        forall|i: int, j: int|
            0 <= i < p.owned(a).len() && 0 <= j < p.owned(a).len() && #[trigger] p.owned(a)[i] == id
                && #[trigger] p.owned(a)[j] == id ==> i == j,
        forall|b: AccountId| b != a ==> !(#[trigger] p.owned(b)).contains(id),
{
    let k = choose|k: int| 0 <= k < p.owned(a).len() && p.owned(a)[k] == id;
    assert(p.owned(a)[k] < p.last_kitty_id);
    assert(p.owned(a).no_duplicates());
    assert forall|b: AccountId| b != a implies !(#[trigger] p.owned(b)).contains(id) by {
        if p.owned(b).contains(id) {
            let m = choose|m: int| 0 <= m < p.owned(b).len() && p.owned(b)[m] == id;
            assert(p.kitties@[p.owned(b)[m] as int].owner == b);
        }
    }
}

/// After kitty `id` went from `from` to another account `to`: it is gone from
/// the list of `from`, stands exactly once in that of `to`, is owned by `to`
/// and is not for sale.
pub proof fn lemma_moved_kitty(before: Pallet, after: Pallet, from: AccountId, to: AccountId, id: KittyIndex)
    requires
        before.wf(),
        after.wf(),
        before.contains(id),
        before.registry()[id as int].owner == from,
        from != to,
        before.moved_to(&after, id, to),
    ensures
        !after.owned(from).contains(id),
        after.owned(to).contains(id),
        forall|i: int, j: int|
            0 <= i < after.owned(to).len() && 0 <= j < after.owned(to).len() && #[trigger] after.owned(to)[i]
                == id && #[trigger] after.owned(to)[j] == id ==> i == j,
        after.registry()[id as int].owner == to,
        after.registry()[id as int].price is None,
{
    let i = choose|i: int|
        0 <= i < before.owned(from).len() && before.owned(from)[i] == id && (if from == to {
            after.owned(to) == swap_removed(before.owned(from), i).push(id)
        } else {
            after.owned(from) == swap_removed(before.owned(from), i) && after.owned(to)
                == before.owned(to).push(id)
        });
    assert(before.owned(from).no_duplicates());
    lemma_swap_removed(before.owned(from), i);
    assert(after.owned(to)[before.owned(to).len() as int] == id);
    lemma_single_owner(after, to, id);
}

/// Once the owner has set an ask price, `buy_kitty` accepts a bid of exactly
/// that price from another account that has room in its list and funds
/// beyond the bid and the stake.
pub proof fn lemma_bid_at_ask_accepted(
    before: Pallet,
    after: Pallet,
    ledger: Balances,
    seller: AccountId,
    buyer: AccountId,
    id: KittyIndex,
    ask: Balance,
)
    requires
        before.owner_error(id, seller) is None,
        after.same_config(&before),
        after.registry() == before.registry().update(
            id as int,
            Kitty {
                dna: before.registry()[id as int].dna,
                price: Some(ask),
                gender: before.registry()[id as int].gender,
                owner: before.registry()[id as int].owner,
            },
        ),
        forall|who: AccountId| #[trigger] after.owned(who) == before.owned(who),
        buyer != seller,
        before.owned(buyer).len() < before.max_owned(),
        ledger.account(buyer).free > ask + before.stake(),
        ledger.account(seller).free + ledger.account(seller).reserved + ask <= u128::MAX,
    ensures
        after.buy_error(&ledger, buyer, id, ask) is None,
{
    assert(after.owned(buyer) == before.owned(buyer));
}

/// Transferring one's own kitty to oneself fails with `TransferToSelf`.
pub proof fn lemma_self_transfer_refused(p: Pallet, ledger: Balances, caller: AccountId, id: KittyIndex)
    requires
        p.owner_error(id, caller) is None,
    ensures
        p.transfer_error(&ledger, caller, caller, id) == Some(Error::TransferToSelf),
{
}

/// Every account has at least the stake of each kitty it owns reserved on
/// `ledger`.
pub open spec fn stakes_backed(p: Pallet, ledger: Balances) -> bool {
    forall|who: AccountId| #[trigger] ledger.account(who).reserved >= p.stake() * p.owned(who).len()
}

/// Minting a kitty for `owner` while reserving one stake from it keeps every
/// owned kitty's stake reserved.
pub proof fn lemma_mint_keeps_stakes(
    before: Pallet,
    after: Pallet,
    lb: Balances,
    la: Balances,
    owner: AccountId,
    dna: Seq<u8>,
    gender: Gender,
)
    requires
        stakes_backed(before, lb),
        before.minted(&after, owner, dna, gender),
        la.account(owner).reserved == lb.account(owner).reserved + before.stake(),
        lb.same_except(&la, owner, owner),
    ensures
        stakes_backed(after, la),
{
    assert forall|who: AccountId| #[trigger] la.account(who).reserved >= after.stake() * after.owned(who).len() by {
        let n = before.owned(who).len();
        let s = before.stake() as int;
        assert(lb.account(who).reserved >= s * n);
        if who == owner {
            assert(s * (n + 1) == s * n + s) by (nonlinear_arith);
        } else {
            assert(after.owned(who) == before.owned(who));
        }
    }
}

/// Moving kitty `id` from its owner to another account `to`, reserving one
/// stake from `to` and releasing one from the previous owner, keeps every
/// owned kitty's stake reserved.
pub proof fn lemma_move_keeps_stakes(
    before: Pallet,
    after: Pallet,
    lb: Balances,
    la: Balances,
    id: KittyIndex,
    to: AccountId,
)
    requires
        before.wf(),
        stakes_backed(before, lb),
        before.contains(id),
        before.registry()[id as int].owner != to,
        before.moved_to(&after, id, to),
        la.account(to).reserved == lb.account(to).reserved + before.stake(),
        la.account(before.registry()[id as int].owner).reserved == unreserved(
            lb.account(before.registry()[id as int].owner),
            before.stake(),
        ).reserved,
        lb.same_except(&la, before.registry()[id as int].owner, to),
    ensures
        stakes_backed(after, la),
{
    let prev = before.registry()[id as int].owner;
    let s = before.stake() as int;
    let i = choose|i: int|
        0 <= i < before.owned(prev).len() && before.owned(prev)[i] == id && (if prev == to {
            after.owned(to) == swap_removed(before.owned(prev), i).push(id)
        } else {
            after.owned(prev) == swap_removed(before.owned(prev), i) && after.owned(to)
                == before.owned(to).push(id)
        });
    assert forall|who: AccountId| #[trigger] la.account(who).reserved >= after.stake() * after.owned(who).len() by {
        let n = before.owned(who).len() as int;
        assert(lb.account(who).reserved >= s * n);
        if who == to {
            assert(s * (n + 1) == s * n + s) by (nonlinear_arith);
        } else if who == prev {
            assert(n >= 1);
            assert(s * n == s * (n - 1) + s) by (nonlinear_arith);
            assert(s * (n - 1) >= 0) by (nonlinear_arith)
                requires s >= 0, n >= 1;
        } else {
            assert(after.owned(who) == before.owned(who));
        }
    }
}

/// Removing the entry at `i` by moving the last entry into its place keeps a
/// list free of repeats and removes exactly that entry's value.
proof fn lemma_swap_removed(s: Seq<KittyIndex>, i: int)
    requires
        0 <= i < s.len(),
        s.no_duplicates(),
    ensures
        swap_removed(s, i).len() == s.len() - 1,
        swap_removed(s, i).no_duplicates(),
        forall|x: KittyIndex| #[trigger] swap_removed(s, i).contains(x) <==> (s.contains(x) && x != s[i]),
{
    let t = swap_removed(s, i);
    let n = s.len() - 1;
    // position in `s` of the entry at position `k` of `t`
    assert forall|k: int| 0 <= k < t.len() implies #[trigger] t[k] == s[if k == i { n } else { k }] by {}
    assert forall|a: int, b: int| 0 <= a < t.len() && 0 <= b < t.len() && a != b implies t[a] != t[b] by {
        let pa = if a == i { n } else { a };
        let pb = if b == i { n } else { b };
        assert(t[a] == s[pa]);
        assert(t[b] == s[pb]);
    }
    assert forall|x: KittyIndex| #[trigger] t.contains(x) <==> (s.contains(x) && x != s[i]) by {
        if t.contains(x) {
            let k = choose|k: int| 0 <= k < t.len() && t[k] == x;
            let pk = if k == i { n } else { k };
            assert(s[pk] == x);
        }
        if s.contains(x) && x != s[i] {
            let k = choose|k: int| 0 <= k < s.len() && s[k] == x;
            if k == n {
                assert(t[i] == x);
            } else {
                assert(t[k] == x);
            }
        }
    }
}

/// Moving kitty `id` from its owner's list (entry `i`) to the end of the list
/// of `to`, with the registry updated to match, keeps the registry well formed.
proof fn lemma_move_keeps_wf(p: Pallet, q: Pallet, id: KittyIndex, to: AccountId, i: int)
    requires
        p.wf(),
        (id as nat) < p.kitties@.len(),
        0 <= i < p.owned(p.kitties@[id as int].owner).len(),
        p.owned(p.kitties@[id as int].owner)[i] == id,
        q.max_kitty_owned == p.max_kitty_owned,
        q.last_kitty_id == p.last_kitty_id,
        q.kitties@ == p.kitties@.update(
            id as int,
            Kitty {
                dna: p.kitties@[id as int].dna,
                price: None,
                gender: p.kitties@[id as int].gender,
                owner: to,
            },
        ),
        p.kitties@[id as int].owner == to ==> q.owned(to) == swap_removed(p.owned(to), i).push(id),
        p.kitties@[id as int].owner != to ==> {
            &&& q.owned(p.kitties@[id as int].owner) == swap_removed(
                p.owned(p.kitties@[id as int].owner),
                i,
            )
            &&& q.owned(to) == p.owned(to).push(id)
            &&& p.owned(to).len() < p.max_kitty_owned
        },
        p.same_index_except(&q, p.kitties@[id as int].owner, to),
    ensures
        q.wf(),
{
    let prev = p.kitties@[id as int].owner;
    lemma_swap_removed(p.owned(prev), i);
    assert(p.owned(prev).no_duplicates());
    assert forall|who: AccountId, x: KittyIndex|
        #[trigger] q.owned(who).contains(x) <==> (if x == id {
            who == to
        } else {
            p.owned(who).contains(x)
        }) by {
        if who != prev && who != to {
            assert(q.owned(who) == p.owned(who));
            if p.owned(who).contains(id) {
                let k = choose|k: int| 0 <= k < p.owned(who).len() && p.owned(who)[k] == id;
                assert(p.kitties@[p.owned(who)[k] as int].owner == who);
            }
        } else if who == to {
            if who == prev {
                assert(q.owned(to).last() == id);
                if q.owned(to).contains(x) && x != id {
                    let k = choose|k: int| 0 <= k < q.owned(to).len() && q.owned(to)[k] == x;
                    assert(swap_removed(p.owned(to), i).contains(x));
                }
                if x != id && p.owned(who).contains(x) {
                    assert(swap_removed(p.owned(to), i).contains(x));
                    let k = choose|k: int| 0 <= k < swap_removed(p.owned(to), i).len() && swap_removed(p.owned(to), i)[k] == x;
                    assert(q.owned(to)[k] == x);
                }
            } else {
                assert(q.owned(to)[p.owned(to).len() as int] == id);
                if q.owned(to).contains(x) && x != id {
                    let k = choose|k: int| 0 <= k < q.owned(to).len() && q.owned(to)[k] == x;
                    assert(p.owned(to)[k] == x);
                }
                if x != id && p.owned(who).contains(x) {
                    let k = choose|k: int| 0 <= k < p.owned(to).len() && p.owned(to)[k] == x;
                    assert(q.owned(to)[k] == x);
                }
            }
        } else {
            assert(swap_removed(p.owned(prev), i).contains(x) <==> (p.owned(prev).contains(x) && x != id));
        }
    }
    assert forall|who: AccountId, j: int|
        0 <= j < q.owned(who).len() implies (#[trigger] q.owned(who)[j]) < q.last_kitty_id
            && q.kitties@[q.owned(who)[j] as int].owner == who by {
        let x = q.owned(who)[j];
        assert(q.owned(who).contains(x));
        if x != id {
            let k = choose|k: int| 0 <= k < p.owned(who).len() && p.owned(who)[k] == x;
            assert(p.owned(who)[k] < p.last_kitty_id);
        }
    }
    assert forall|k: int| 0 <= k < q.kitties@.len() implies q.owned((#[trigger] q.kitties@[k]).owner).contains(
        k as KittyIndex,
    ) by {
        if k != id as int {
            assert(p.kitties@[k] == q.kitties@[k]);
            assert(p.owned(p.kitties@[k].owner).contains(k as KittyIndex));
            assert(q.owned(p.kitties@[k].owner).contains(k as KittyIndex));
        } else {
            assert(q.owned(to).contains(id));
        }
    }
    assert forall|who: AccountId| #[trigger] q.owned(who).no_duplicates() && q.owned(who).len() <= q.max_kitty_owned by {
        if who != prev && who != to {
            assert(q.owned(who) == p.owned(who));
        } else if who == to {
            assert(p.owned(to).no_duplicates());
            if who == prev {
                assert(!swap_removed(p.owned(to), i).contains(id));
            } else {
                if p.owned(to).contains(id) {
                    let k = choose|k: int| 0 <= k < p.owned(to).len() && p.owned(to)[k] == id;
                    assert(p.kitties@[p.owned(to)[k] as int].owner == to);
                }
            }
        }
    }
}

} // verus!
