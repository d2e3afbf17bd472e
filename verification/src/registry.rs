//! The registry: durable asset store, ownership index, ledger balances and
//! event log, with the five operation handlers as its verified state
//! transitions.

use vstd::prelude::*;

use crate::dna::Gender;
use crate::store::Kitty;
use crate::store::balance_in;
use crate::store::contains_id;
use crate::store::keys_unique;
use crate::store::lemma_balance_push;
use crate::store::lemma_balance_update;
use crate::store::lemma_id_ext;
use crate::store::lemma_key_absent;
use crate::store::lemma_key_at;
use crate::store::lemma_kitty_at;
use crate::store::lemma_owned_push;
use crate::store::lemma_owned_update;
use crate::store::lemma_store_push;
use crate::store::lemma_store_update;
use crate::store::owned_of;
use crate::store::seq_dnas_unique;
use crate::store::seq_has_dna;
use crate::store::seq_has_key;

verus! {

/// Whether two identifiers hold the same bytes.
fn id_eq(a: &[u8; 16], b: &[u8; 16]) -> (r: bool)
    ensures
        r == (a@ == b@),
{
    let mut i: usize = 0;
    while i < 16
        invariant
            i <= 16,
            forall|k: int| 0 <= k < i ==> a@[k] == b@[k],
        decreases 16 - i,
    {
        if a[i] != b[i] {
            return false;
        }
        i = i + 1;
    }
    proof {
        assert(a@ =~= b@);
    }
    true
}

/// A fresh copy of an identifier list with one identifier appended.
fn copy_push(src: &Vec<[u8; 16]>, extra: [u8; 16]) -> (r: Vec<[u8; 16]>)
    ensures
        r@ == src@.push(extra),
{
    let n = src.len();
    let mut r: Vec<[u8; 16]> = Vec::new();
    let mut i: usize = 0;
    while i < n
        invariant
            i <= n,
            n == src@.len(),
            r@ == src@.subrange(0, i as int),
        decreases n - i,
    {
        r.push(src[i]);
        proof {
            assert(r@ =~= src@.subrange(0, i + 1));
        }
        i = i + 1;
    }
    r.push(extra);
    proof {
        assert(src@.subrange(0, n as int) =~= src@);
        assert(r@ =~= src@.push(extra));
    }
    r
}

/// A fresh copy of an identifier list with the element at `p` left out.
fn copy_without(src: &Vec<[u8; 16]>, p: usize) -> (r: Vec<[u8; 16]>)
    requires
        p < src@.len(),
    ensures
        r@ == src@.remove(p as int),
{
    let n = src.len();
    let mut r: Vec<[u8; 16]> = Vec::new();
    let mut i: usize = 0;
    while i < p
        invariant
            i <= p,
            p < n,
            n == src@.len(),
            r@ == src@.subrange(0, i as int),
        decreases p - i,
    {
        r.push(src[i]);
        proof {
            assert(r@ =~= src@.subrange(0, i + 1));
        }
        i = i + 1;
    }
    i = p + 1;
    while i < n
        invariant
            p < i <= n,
            n == src@.len(),
            r@ == src@.subrange(0, p as int) + src@.subrange(p + 1, i as int),
        decreases n - i,
    {
        r.push(src[i]);
        proof {
            assert(r@ =~= src@.subrange(0, p as int) + src@.subrange(p + 1, i + 1));
        }
        i = i + 1;
    }
    proof {
        assert(r@ =~= src@.remove(p as int));
    }
    r
}

/// Position of an identifier in a list, first occurrence.
fn find_in_list(lst: &Vec<[u8; 16]>, id: &[u8; 16]) -> (r: Option<usize>)
    ensures
        match r {
            Some(p) => p < lst@.len() && lst@[p as int]@ == id@ && (forall|j: int|
                0 <= j < p ==> lst@[j]@ != id@),
            None => !contains_id(lst@, id@),
        },
{
    let n = lst.len();
    let mut i: usize = 0;
    while i < n
        invariant
            i <= n,
            n == lst@.len(),
            forall|j: int| 0 <= j < i ==> lst@[j]@ != id@,
        decreases n - i,
    {
        if id_eq(&lst[i], id) {
            return Some(i);
        }
        i = i + 1;
    }
    None
}

/// Removing the first occurrence at a known position is `remove_value`.
proof fn lemma_remove_first(s: Seq<[u8; 16]>, p: int, id: [u8; 16])
    requires
        0 <= p < s.len(),
        s[p]@ == id@,
        forall|j: int| 0 <= j < p ==> s[j]@ != id@,
    ensures
        s.remove(p) == s.remove_value(id),
{
    lemma_id_ext(s[p], id);
    s.index_of_first_ensures(id);
    assert(s.contains(id));
    match s.index_of_first(id) {
        Some(idx) => {
            if idx < p {
                assert(s[idx] == id);
                assert(s[idx]@ != id@);
                assert(false);
            } else if p < idx {
                assert(s[p] != id);
                assert(false);
            }
        },
        None => {
            assert(false);
        },
    }
}

/// Why an operation was refused; every failure leaves the registry unchanged.
#[derive(Clone, Copy, PartialEq, Eq, Structural, Debug)]
pub enum Error {
    /// The referenced identifier is absent from the asset store.
    NoKitty,
    /// The caller is not the recorded owner of a referenced asset.
    NotOwner,
    /// A generated or supplied identifier collides with an existing one.
    DuplicateKitty,
    /// The parents are the same asset or of the same gender.
    CantBreed,
    /// The recipient equals the current owner.
    TransferToSelf,
    /// The target account already owns the configured maximum.
    TooManyOwned,
    /// The asset is not listed for sale.
    NotForSale,
    /// The bid is below the listed price.
    BidPriceTooLow,
    /// The buyer's free balance is below the listed price.
    InsufficientBalance,
    /// Crediting the seller would overflow the ledger.
    Overflow,
}

/// What a successful operation announces.
#[derive(Clone, Copy, Debug)]
pub enum Event {
    Created { kitty: [u8; 16], owner: u64 },
    Transferred { from: u64, to: u64, kitty: [u8; 16] },
    PriceSet { kitty: [u8; 16], owner: u64, new_price: Option<u64> },
    Sold { seller: u64, buyer: u64, kitty: [u8; 16], price: u64 },
}

/// The registry state: the asset store, the per-account ownership index, the
/// global count, the ledger balances, the event log, and the environment
/// inputs (entropy seed, block height, per-block operation sequence number)
/// together with the per-account capacity bound.
pub struct Registry {
    pub max_owned: u32,
    pub seed: [u8; 32],
    pub block_number: u64,
    pub extrinsic_index: u32,
    pub kitties: Vec<Kitty>,
    pub owned_index: Vec<(u64, Vec<[u8; 16]>)>,
    pub count: u64,
    pub balances: Vec<(u64, u64)>,
    pub event_log: Vec<Event>,
}

impl Registry {
    /// Whether an asset with identifier `d` exists.
    pub open spec fn has_dna(self, d: Seq<u8>) -> bool {
        seq_has_dna(self.kitties@, d)
    }

    /// The asset with identifier `d` (meaningful when `has_dna(d)`).
    pub open spec fn kitty_d(self, d: Seq<u8>) -> Kitty {
        crate::store::seq_kitty(self.kitties@, d)
    }

    /// The ordered identifier list owned by account `a`.
    pub open spec fn owned(self, a: u64) -> Seq<[u8; 16]> {
        owned_of(self.owned_index@, a)
    }

    /// The free balance of account `a`.
    pub open spec fn balance_of(self, a: u64) -> u64 {
        balance_in(self.balances@, a)
    }

    /// Consistency of one ownership-index entry: within capacity, every
    /// listed identifier names an existing asset owned by the entry's
    /// account, and no identifier is listed twice.
    pub open spec fn entry_ok(self, i: int) -> bool {
        let a = self.owned_index@[i].0;
        let lst = self.owned_index@[i].1@;
        &&& lst.len() <= self.max_owned
        &&& forall|j: int|
            0 <= j < lst.len() ==> seq_has_dna(self.kitties@, (#[trigger] lst[j])@)
                && self.kitty_d(lst[j]@).owner == a
        &&& forall|j1: int, j2: int| 0 <= j1 < j2 < lst.len() ==> lst[j1]@ != lst[j2]@
    }

    /// Well-formedness of the whole registry: the count equals the store
    /// size, identifiers and index/ledger keys are unique, every index entry
    /// is consistent, and every asset is listed under its owner.
    pub open spec fn wf(self) -> bool {
        &&& self.count == self.kitties@.len()
        &&& seq_dnas_unique(self.kitties@)
        &&& keys_unique(self.owned_index@)
        &&& keys_unique(self.balances@)
        &&& forall|i: int| 0 <= i < self.owned_index@.len() ==> self.entry_ok(i)
        &&& forall|i: int|
            0 <= i < self.kitties@.len() ==> crate::store::contains_id(
                self.owned((#[trigger] self.kitties@[i]).owner),
                self.kitties@[i].dna@,
            )
    }

    /// An empty registry with the given capacity bound and entropy seed.
    pub fn new(max_owned: u32, seed: [u8; 32]) -> (r: Registry)
        ensures
            r.wf(),
            r.max_owned == max_owned,
            r.seed == seed,
            r.block_number == 0,
            r.extrinsic_index == 0,
            r.count == 0,
            r.kitties@.len() == 0,
            forall|a: u64| r.owned(a) == Seq::<[u8; 16]>::empty(),
            forall|a: u64| r.balance_of(a) == 0,
            r.event_log@.len() == 0,
    {
        let r = Registry {
            max_owned,
            seed,
            block_number: 0,
            extrinsic_index: 0,
            kitties: Vec::new(),
            owned_index: Vec::new(),
            count: 0,
            balances: Vec::new(),
            event_log: Vec::new(),
        };
        proof {
            assert(forall|a: u64| !seq_has_key(r.owned_index@, a));
            assert(forall|a: u64| !seq_has_key(r.balances@, a));
        }
        r
    }

    /// Index of the asset with the given identifier in the store, if any.
    fn find_kitty(&self, dna: &[u8; 16]) -> (r: Option<usize>)
        ensures
            match r {
                Some(i) => i < self.kitties@.len() && self.kitties@[i as int].dna@ == dna@,
                None => !self.has_dna(dna@),
            },
    {
        let n = self.kitties.len();
        let mut i: usize = 0;
        while i < n
            invariant
                i <= n,
                n == self.kitties@.len(),
                forall|k: int| 0 <= k < i ==> self.kitties@[k].dna@ != dna@,
            decreases n - i,
        {
            if id_eq(&self.kitties[i].dna, dna) {
                return Some(i);
            }
            i = i + 1;
        }
        None
    }

    /// Index of the ownership-index entry for the given account, if any.
    fn find_owned(&self, a: u64) -> (r: Option<usize>)
        ensures
            match r {
                Some(i) => i < self.owned_index@.len() && self.owned_index@[i as int].0 == a,
                None => !seq_has_key(self.owned_index@, a),
            },
    {
        let n = self.owned_index.len();
        let mut i: usize = 0;
        while i < n
            invariant
                i <= n,
                n == self.owned_index@.len(),
                forall|k: int| 0 <= k < i ==> self.owned_index@[k].0 != a,
            decreases n - i,
        {
            if self.owned_index[i].0 == a {
                return Some(i);
            }
            i = i + 1;
        }
        None
    }

    /// Index of the ledger entry for the given account, if any.
    fn find_balance(&self, a: u64) -> (r: Option<usize>)
        ensures
            match r {
                Some(i) => i < self.balances@.len() && self.balances@[i as int].0 == a,
                None => !seq_has_key(self.balances@, a),
            },
    {
        let n = self.balances.len();
        let mut i: usize = 0;
        while i < n
            invariant
                i <= n,
                n == self.balances@.len(),
                forall|k: int| 0 <= k < i ==> self.balances@[k].0 != a,
            decreases n - i,
        {
            if self.balances[i].0 == a {
                return Some(i);
            }
            i = i + 1;
        }
        None
    }

    /// How many assets the account currently owns.
    fn owned_len(&self, a: u64) -> (r: usize)
        requires
            keys_unique(self.owned_index@),
        ensures
            r == self.owned(a).len(),
    {
        match self.find_owned(a) {
            Some(i) => {
                proof {
                    lemma_key_at(self.owned_index@, i as int);
                }
                self.owned_index[i].1.len()
            },
            None => 0,
        }
    }

    /// Mints an asset with the given identifier, gender and owner; the write
    /// path shared by `create_kitty`, `breed_kitty` and genesis loading.
    /// Fails with `DuplicateKitty` on an identifier collision and with
    /// `TooManyOwned` when the owner's index is at capacity; a failed call
    /// leaves the registry unchanged.
    pub fn mint(&mut self, owner: u64, dna: [u8; 16], gender: Gender) -> (r: Result<(), Error>)
        requires
            old(self).wf(),
        ensures
            final(self).wf(),
            r == mint_result(*old(self), owner, dna),
            r is Err ==> *final(self) == *old(self),
            r is Ok ==> minted_with(*old(self), *final(self), owner) && final(self).kitties@.last()
                == (Kitty { dna, gender, owner, price: None }),
    {
        match self.find_kitty(&dna) {
            Some(i) => {
                proof {
                    lemma_kitty_at(self.kitties@, i as int);
                }
                return Err(Error::DuplicateKitty);
            },
            None => {},
        }
        let oi = self.find_owned(owner);
        let cur_len: usize = match oi {
            Some(i) => {
                proof {
                    lemma_key_at(self.owned_index@, i as int);
                }
                self.owned_index[i].1.len()
            },
            None => 0,
        };
        assert(cur_len == self.owned(owner).len());
        if cur_len >= self.max_owned as usize {
            return Err(Error::TooManyOwned);
        }
        let ghost s = *self;
        let k = Kitty { dna, gender, owner, price: None };
        self.kitties.push(k);
        let n = self.kitties.len();
        assert(self.count + 1 == n);
        self.count = self.count + 1;
        match oi {
            Some(i) => {
                let nl = copy_push(&self.owned_index[i].1, dna);
                self.owned_index[i] = (owner, nl);
                proof {
                    assert(self.owned_index@ == s.owned_index@.update(
                        i as int,
                        (s.owned_index@[i as int].0, nl),
                    ));
                    lemma_owned_update(s.owned_index@, i as int, nl);
                    lemma_key_at(s.owned_index@, i as int);
                }
            },
            None => {
                let mut nl: Vec<[u8; 16]> = Vec::new();
                nl.push(dna);
                self.owned_index.push((owner, nl));
                proof {
                    lemma_owned_push(s.owned_index@, owner, nl);
                    assert(nl@ =~= s.owned(owner).push(dna));
                }
            },
        }
        self.event_log.push(Event::Created { kitty: dna, owner });
        proof {
            let t = *self;
            lemma_store_push(s.kitties@, k);
            assert(t.owned(owner) == s.owned(owner).push(dna));
            assert(forall|a: u64| a != owner ==> t.owned(a) == s.owned(a));
            assert forall|i: int| 0 <= i < t.owned_index@.len() implies t.entry_ok(i) by {
                let a = t.owned_index@[i].0;
                let lst = t.owned_index@[i].1@;
                lemma_key_at(t.owned_index@, i);
                assert(t.owned(a) == lst);
                if a == owner {
                    assert(lst == s.owned(owner).push(dna));
                    if seq_has_key(s.owned_index@, owner) {
                        let si = crate::store::seq_key_idx(s.owned_index@, owner);
                        assert(s.entry_ok(si));
                        assert(s.owned(owner) == s.owned_index@[si].1@);
                    }
                    assert forall|j: int|
                        0 <= j < lst.len() implies seq_has_dna(t.kitties@, (#[trigger] lst[j])@)
                        && t.kitty_d(lst[j]@).owner == a by {
                        if j < lst.len() - 1 {
                            assert(lst[j] == s.owned(owner)[j]);
                            assert(seq_has_dna(s.kitties@, lst[j]@));
                        } else {
                            assert(lst[j] == dna);
                        }
                    }
                    assert forall|j1: int, j2: int|
                        0 <= j1 < j2 < lst.len() implies lst[j1]@ != lst[j2]@ by {
                        if j2 == lst.len() - 1 {
                            assert(seq_has_dna(s.kitties@, lst[j1]@));
                            assert(!seq_has_dna(s.kitties@, dna@));
                        }
                    }
                } else {
                    if seq_has_key(s.owned_index@, a) {
                        let si = crate::store::seq_key_idx(s.owned_index@, a);
                        assert(s.entry_ok(si));
                        assert(s.owned(a) == s.owned_index@[si].1@);
                        assert(lst == s.owned(a));
                        assert forall|j: int|
                            0 <= j < lst.len() implies seq_has_dna(t.kitties@, (#[trigger] lst[j])@)
                            && t.kitty_d(lst[j]@).owner == a by {
                            assert(seq_has_dna(s.kitties@, lst[j]@));
                        }
                    } else {
                        assert(t.owned(a) == s.owned(a));
                        assert(s.owned(a) == Seq::<[u8; 16]>::empty());
                        assert(lst.len() == 0);
                    }
                }
            }
            assert forall|i: int|
                0 <= i < t.kitties@.len() implies contains_id(
                t.owned((#[trigger] t.kitties@[i]).owner),
                t.kitties@[i].dna@,
            ) by {
                if i < s.kitties@.len() {
                    assert(t.kitties@[i] == s.kitties@[i]);
                    let a = s.kitties@[i].owner;
                    assert(contains_id(s.owned(a), s.kitties@[i].dna@));
                    if a == owner {
                        let j = choose|j: int|
                            0 <= j < s.owned(a).len() && s.owned(a)[j]@ == s.kitties@[i].dna@;
                        assert(t.owned(a)[j]@ == s.kitties@[i].dna@);
                    }
                } else {
                    assert(t.kitties@[i] == k);
                    assert(t.owned(owner)[t.owned(owner).len() - 1] == dna);
                }
            }
            assert(t.wf());
        }
        Ok(())
    }
}

/// The environment inputs and the capacity bound are untouched.
pub open spec fn same_config(s: Registry, t: Registry) -> bool {
    &&& t.max_owned == s.max_owned
    &&& t.seed == s.seed
    &&& t.block_number == s.block_number
    &&& t.extrinsic_index == s.extrinsic_index
}

/// The effect of a successful mint: the new asset (readable as the last
/// element of the store) is unpriced, owned by `owner` and appended to
/// `owner`'s index; the count grows by one; a creation event is logged;
/// nothing else changes.
pub open spec fn minted_with(s: Registry, t: Registry, owner: u64) -> bool {
    let k = t.kitties@.last();
    &&& t.kitties@ == s.kitties@.push(k)
    &&& k.owner == owner
    &&& k.price is None
    &&& t.owned(owner) == s.owned(owner).push(k.dna)
    &&& forall|a: u64| a != owner ==> t.owned(a) == s.owned(a)
    &&& t.count == s.count + 1
    &&& t.balances@ == s.balances@
    &&& t.event_log@ == s.event_log@.push(Event::Created { kitty: k.dna, owner })
    &&& same_config(s, t)
}

/// Exactly when a mint succeeds, and which error it reports otherwise.
pub open spec fn mint_result(s: Registry, owner: u64, dna: [u8; 16]) -> Result<(), Error> {
    if s.has_dna(dna@) {
        Err(Error::DuplicateKitty)
    } else if s.owned(owner).len() >= s.max_owned {
        Err(Error::TooManyOwned)
    } else {
        Ok(())
    }
}

/// The effect of handing the asset `id` from `from` to `to`: the asset keeps
/// its identifier, traits and gender, its owner becomes `to` and it is
/// delisted; the identifier leaves `from`'s index and is appended to `to`'s
/// (for a sale back to the same account, it moves to the end of that list);
/// the count and every other account's index are untouched.
pub open spec fn moved(s: Registry, t: Registry, from: u64, to: u64, id: [u8; 16]) -> bool {
    let k = s.kitty_d(id@);
    &&& t.kitties@ == s.kitties@.update(
        crate::store::seq_dna_idx(s.kitties@, id@),
        (Kitty { dna: k.dna, gender: k.gender, owner: to, price: None }),
    )
    &&& forall|d: Seq<u8>| t.has_dna(d) <==> s.has_dna(d)
    &&& t.has_dna(id@) && t.kitty_d(id@) == (Kitty {
        dna: k.dna,
        gender: k.gender,
        owner: to,
        price: None,
    })
    &&& forall|d: Seq<u8>| #[trigger] s.has_dna(d) && d != id@ ==> t.kitty_d(d) == s.kitty_d(d)
    &&& if from == to {
        t.owned(from) == s.owned(from).remove_value(id).push(id)
    } else {
        t.owned(from) == s.owned(from).remove_value(id) && t.owned(to) == s.owned(to).push(id)
    }
    &&& from != to ==> t.owned(from).len() + 1 == s.owned(from).len() && !contains_id(
        t.owned(from),
        id@,
    )
    &&& t.owned(to).len() == if from == to {
        s.owned(to).len()
    } else {
        s.owned(to).len() + 1
    }
    &&& contains_id(t.owned(to), id@)
    &&& forall|a: u64| a != from && a != to ==> t.owned(a) == s.owned(a)
    &&& t.count == s.count
    &&& same_config(s, t)
}

impl Registry {
    /// Moves an asset between accounts and delists it; the write path shared
    /// by `transfer` and `buy_kitty`.
    fn do_move(&mut self, from: u64, to: u64, kitty_id: [u8; 16])
        requires
            old(self).wf(),
            old(self).has_dna(kitty_id@),
            old(self).kitty_d(kitty_id@).owner == from,
            from != to ==> old(self).owned(to).len() < old(self).max_owned,
        ensures
            final(self).wf(),
            moved(*old(self), *final(self), from, to, kitty_id),
            final(self).balances@ == old(self).balances@,
            final(self).event_log@ == old(self).event_log@,
            final(self).has_dna(kitty_id@),
            final(self).kitty_d(kitty_id@).owner == to,
            final(self).kitty_d(kitty_id@).price is None,
    {
        let ghost s = *self;
        let ki = match self.find_kitty(&kitty_id) {
            Some(i) => i,
            None => {
                proof {
                    assert(false);
                }
                return ;
            },
        };
        proof {
            lemma_kitty_at(s.kitties@, ki as int);
        }
        let k = self.kitties[ki];
        let oi_to = self.find_owned(to);
        let fi = match self.find_owned(from) {
            Some(i) => i,
            None => {
                proof {
                    assert(contains_id(s.owned(from), s.kitties@[ki as int].dna@));
                    assert(false);
                }
                return ;
            },
        };
        proof {
            lemma_key_at(s.owned_index@, fi as int);
            assert(s.owned(from) == s.owned_index@[fi as int].1@);
        }
        let p = match find_in_list(&self.owned_index[fi].1, &kitty_id) {
            Some(p) => p,
            None => {
                proof {
                    assert(contains_id(s.owned(from), s.kitties@[ki as int].dna@));
                    assert(false);
                }
                return ;
            },
        };
        let ghost from_list = s.owned(from);
        let nl_from = copy_without(&self.owned_index[fi].1, p);
        self.owned_index[fi] = (from, nl_from);
        let ghost m1 = self.owned_index@;
        proof {
            assert(m1 == s.owned_index@.update(fi as int, (from, nl_from)));
            lemma_owned_update(s.owned_index@, fi as int, nl_from);
            lemma_remove_first(from_list, p as int, kitty_id);
            assert(owned_of(m1, from) == from_list.remove_value(kitty_id));
        }
        // Append to the recipient's list; when buying back one's own asset
        // the recipient entry is the one just shrunk.
        let ghost m2: Seq<(u64, Vec<[u8; 16]>)>;
        match oi_to {
            Some(j) => {
                proof {
                    lemma_key_at(s.owned_index@, j as int);
                    if from != to {
                        assert(j != fi);
                        assert(m1[j as int] == s.owned_index@[j as int]);
                        assert(owned_of(m1, to) == s.owned(to));
                    } else {
                        assert(j == fi);
                    }
                }
                let nl_to = copy_push(&self.owned_index[j].1, kitty_id);
                self.owned_index[j] = (to, nl_to);
                proof {
                    m2 = self.owned_index@;
                    assert(m2 == m1.update(j as int, (m1[j as int].0, nl_to)));
                    lemma_owned_update(m1, j as int, nl_to);
                }
            },
            None => {
                proof {
                    assert(from != to) by {
                        if from == to {
                            assert(seq_has_key(s.owned_index@, from));
                        }
                    }
                    assert forall|x: int| 0 <= x < m1.len() implies m1[x].0 != to by {
                        if m1[x].0 == to {
                            assert(s.owned_index@[x].0 == to);
                            assert(seq_has_key(s.owned_index@, to));
                        }
                    }
                    lemma_key_absent(m1, to);
                }
                let mut nl: Vec<[u8; 16]> = Vec::new();
                nl.push(kitty_id);
                self.owned_index.push((to, nl));
                proof {
                    m2 = self.owned_index@;
                    lemma_owned_push(m1, to, nl);
                    assert(s.owned(to) == Seq::<[u8; 16]>::empty());
                    assert(nl@ =~= s.owned(to).push(kitty_id));
                }
            },
        }
        let k2 = Kitty { dna: k.dna, gender: k.gender, owner: to, price: None };
        self.kitties[ki] = k2;
        proof {
            let t = *self;
            lemma_id_ext(k.dna, kitty_id);
            lemma_store_update(s.kitties@, ki as int, k2);
            assert(t.kitty_d(kitty_id@) == k2);
            // The one occurrence of the identifier in the old list was at p.
            assert forall|x: int| 0 <= x < from_list.len() && x != p implies from_list[x]@
                != kitty_id@ by {
                assert(s.entry_ok(fi as int));
            }
            // Index reads after the surgery.
            if from == to {
                assert(t.owned(from) == from_list.remove_value(kitty_id).push(kitty_id));
            } else {
                assert(t.owned(from) == from_list.remove_value(kitty_id));
                assert(t.owned(to) == s.owned(to).push(kitty_id));
            }
            assert forall|a: u64| a != from && a != to implies t.owned(a) == s.owned(a) by {
                assert(owned_of(m1, a) == s.owned(a));
            }
            // What the surgery did to lengths and membership.
            let rem0 = from_list.remove(p as int);
            assert forall|x: int| 0 <= x < rem0.len() implies rem0[x] == (if x < p {
                from_list[x]
            } else {
                from_list[x + 1]
            }) by {
                assert(rem0 =~= from_list.subrange(0, p as int) + from_list.subrange(
                    p as int + 1,
                    from_list.len() as int,
                ));
            }
            assert(!contains_id(rem0, kitty_id@)) by {
                if contains_id(rem0, kitty_id@) {
                    let x = choose|x: int| 0 <= x < rem0.len() && rem0[x]@ == kitty_id@;
                    if x < p {
                        assert(from_list[x]@ != kitty_id@);
                    } else {
                        assert(from_list[x + 1]@ != kitty_id@);
                    }
                }
            }
            assert(rem0.len() + 1 == from_list.len());
            let tl = t.owned(to);
            assert(tl[tl.len() - 1] == kitty_id);
            assert(contains_id(tl, kitty_id@));
            // Every index entry is still consistent.
            assert forall|i: int| 0 <= i < t.owned_index@.len() implies t.entry_ok(i) by {
                let a = t.owned_index@[i].0;
                let lst = t.owned_index@[i].1@;
                lemma_key_at(t.owned_index@, i);
                assert(t.owned(a) == lst);
                let rem = from_list.remove(p as int);
                assert(rem == from_list.remove_value(kitty_id));
                assert forall|x: int| 0 <= x < rem.len() implies rem[x] == (if x < p {
                    from_list[x]
                } else {
                    from_list[x + 1]
                }) by {
                    assert(rem =~= from_list.subrange(0, p as int) + from_list.subrange(
                        p as int + 1,
                        from_list.len() as int,
                    ));
                }
                if a == from && a == to {
                    assert(lst == rem.push(kitty_id));
                    assert(s.entry_ok(fi as int));
                    assert forall|j: int|
                        0 <= j < lst.len() implies seq_has_dna(t.kitties@, (#[trigger] lst[j])@)
                        && t.kitty_d(lst[j]@).owner == a by {
                        if j < lst.len() - 1 {
                            assert(lst[j]@ != kitty_id@);
                            assert(seq_has_dna(s.kitties@, lst[j]@));
                            assert(t.kitty_d(lst[j]@) == s.kitty_d(lst[j]@));
                        } else {
                            assert(lst[j] == kitty_id);
                        }
                    }
                    assert forall|j1: int, j2: int|
                        0 <= j1 < j2 < lst.len() implies lst[j1]@ != lst[j2]@ by {
                        if j2 == lst.len() - 1 {
                            assert(lst[j1]@ != kitty_id@);
                        }
                    }
                } else if a == from {
                    assert(lst == rem);
                    assert(s.entry_ok(fi as int));
                    assert forall|j: int|
                        0 <= j < lst.len() implies seq_has_dna(t.kitties@, (#[trigger] lst[j])@)
                        && t.kitty_d(lst[j]@).owner == a by {
                        assert(lst[j]@ != kitty_id@);
                        assert(seq_has_dna(s.kitties@, lst[j]@));
                        assert(t.kitty_d(lst[j]@) == s.kitty_d(lst[j]@));
                    }
                } else if a == to {
                    assert(lst == s.owned(to).push(kitty_id));
                    if seq_has_key(s.owned_index@, to) {
                        let si = crate::store::seq_key_idx(s.owned_index@, to);
                        assert(s.entry_ok(si));
                        assert(s.owned(to) == s.owned_index@[si].1@);
                    }
                    assert forall|j: int|
                        0 <= j < lst.len() implies seq_has_dna(t.kitties@, (#[trigger] lst[j])@)
                        && t.kitty_d(lst[j]@).owner == a by {
                        if j < lst.len() - 1 {
                            assert(lst[j] == s.owned(to)[j]);
                            assert(seq_has_dna(s.kitties@, lst[j]@));
                            assert(s.kitty_d(lst[j]@).owner == to);
                            assert(lst[j]@ != kitty_id@);
                            assert(t.kitty_d(lst[j]@) == s.kitty_d(lst[j]@));
                        } else {
                            assert(lst[j] == kitty_id);
                        }
                    }
                    assert forall|j1: int, j2: int|
                        0 <= j1 < j2 < lst.len() implies lst[j1]@ != lst[j2]@ by {
                        if j2 == lst.len() - 1 {
                            assert(s.kitty_d(lst[j1]@).owner == to);
                            assert(lst[j1]@ != kitty_id@);
                        }
                    }
                } else {
                    assert(lst == s.owned(a));
                    if seq_has_key(s.owned_index@, a) {
                        let si = crate::store::seq_key_idx(s.owned_index@, a);
                        assert(s.entry_ok(si));
                        assert(s.owned(a) == s.owned_index@[si].1@);
                        assert forall|j: int|
                            0 <= j < lst.len() implies seq_has_dna(t.kitties@, (#[trigger] lst[j])@)
                            && t.kitty_d(lst[j]@).owner == a by {
                            assert(seq_has_dna(s.kitties@, lst[j]@));
                            assert(s.kitty_d(lst[j]@).owner == a);
                            assert(lst[j]@ != kitty_id@);
                            assert(t.kitty_d(lst[j]@) == s.kitty_d(lst[j]@));
                        }
                    } else {
                        assert(s.owned(a) == Seq::<[u8; 16]>::empty());
                        assert(lst.len() == 0);
                    }
                }
            }
            // Every asset is still listed under its owner.
            assert forall|i: int|
                0 <= i < t.kitties@.len() implies contains_id(
                t.owned((#[trigger] t.kitties@[i]).owner),
                t.kitties@[i].dna@,
            ) by {
                let rem = from_list.remove(p as int);
                assert forall|x: int| 0 <= x < rem.len() implies rem[x] == (if x < p {
                    from_list[x]
                } else {
                    from_list[x + 1]
                }) by {
                    assert(rem =~= from_list.subrange(0, p as int) + from_list.subrange(
                        p as int + 1,
                        from_list.len() as int,
                    ));
                }
                if i == ki as int {
                    let tl = t.owned(to);
                    assert(tl[tl.len() - 1] == kitty_id);
                } else {
                    assert(t.kitties@[i] == s.kitties@[i]);
                    let a = s.kitties@[i].owner;
                    let d = s.kitties@[i].dna@;
                    assert(d != kitty_id@);
                    assert(contains_id(s.owned(a), d));
                    let x = choose|x: int| 0 <= x < s.owned(a).len() && s.owned(a)[x]@ == d;
                    if a == from {
                        assert(from_list[x]@ == d);
                        assert(x != p);
                        if x < p {
                            assert(rem[x]@ == d);
                            if from == to {
                                assert(t.owned(a)[x]@ == d);
                            }
                        } else {
                            assert(rem[x - 1]@ == d);
                            if from == to {
                                assert(t.owned(a)[x - 1]@ == d);
                            }
                        }
                    } else if a == to {
                        assert(t.owned(a)[x]@ == d);
                    }
                }
            }
            assert(t.wf());
        }
    }

    /// Transfers an asset from the caller to a different account, delisting
    /// it; fails (leaving the registry unchanged) when the asset is unknown,
    /// the caller does not own it, the recipient is the caller, or the
    /// recipient's index is at capacity.
    pub fn transfer(&mut self, caller: u64, to: u64, kitty_id: [u8; 16]) -> (r: Result<(), Error>)
        requires
            old(self).wf(),
        ensures
            final(self).wf(),
            r == transfer_result(*old(self), caller, to, kitty_id),
            r is Err ==> *final(self) == *old(self),
            r is Ok ==> moved(*old(self), *final(self), caller, to, kitty_id),
            r is Ok ==> final(self).balances@ == old(self).balances@,
            r is Ok ==> final(self).event_log@ == old(self).event_log@.push(
                Event::Transferred { from: caller, to, kitty: kitty_id },
            ),
            r is Ok ==> final(self).kitty_d(kitty_id@).owner == to && final(self).kitty_d(
                kitty_id@,
            ).price is None,
    {
        let ki = match self.find_kitty(&kitty_id) {
            Some(i) => i,
            None => {
                return Err(Error::NoKitty);
            },
        };
        proof {
            lemma_kitty_at(self.kitties@, ki as int);
        }
        let k = self.kitties[ki];
        if k.owner != caller {
            return Err(Error::NotOwner);
        }
        if to == caller {
            return Err(Error::TransferToSelf);
        }
        let tlen = self.owned_len(to);
        if tlen >= self.max_owned as usize {
            return Err(Error::TooManyOwned);
        }
        self.do_move(caller, to, kitty_id);
        let ghost t1 = *self;
        self.event_log.push(Event::Transferred { from: caller, to, kitty: kitty_id });
        proof {
            let t2 = *self;
            assert(t2.kitties@ == t1.kitties@);
            assert(t2.owned_index@ == t1.owned_index@);
            assert(t2.balances@ == t1.balances@);
            assert forall|a: u64| t2.owned(a) == t1.owned(a) by {}
            assert forall|i: int| 0 <= i < t2.owned_index@.len() implies t2.entry_ok(i) by {
                assert(t1.entry_ok(i));
            }
            assert(t2.wf());
            assert(moved(*old(self), t2, caller, to, kitty_id));
        }
        Ok(())
    }

    /// Lists the asset at the given price, or delists it with `None`; only
    /// the owner may do so, and nothing but the price and the event log is
    /// touched.
    pub fn set_price(&mut self, caller: u64, kitty_id: [u8; 16], new_price: Option<u64>) -> (r:
        Result<(), Error>)
        requires
            old(self).wf(),
        ensures
            final(self).wf(),
            r == set_price_result(*old(self), caller, kitty_id),
            r is Err ==> *final(self) == *old(self),
            r is Ok ==> {
                let k = old(self).kitty_d(kitty_id@);
                &&& final(self).kitties@ == old(self).kitties@.update(
                    crate::store::seq_dna_idx(old(self).kitties@, kitty_id@),
                    (Kitty { dna: k.dna, gender: k.gender, owner: caller, price: new_price }),
                )
                &&& forall|d: Seq<u8>| final(self).has_dna(d) <==> old(self).has_dna(d)
                &&& final(self).kitty_d(kitty_id@) == (Kitty {
                    dna: k.dna,
                    gender: k.gender,
                    owner: caller,
                    price: new_price,
                })
                &&& forall|d: Seq<u8>|
                    #[trigger] old(self).has_dna(d) && d != kitty_id@ ==> final(self).kitty_d(d)
                        == old(self).kitty_d(d)
                &&& final(self).owned_index@ == old(self).owned_index@
                &&& final(self).balances@ == old(self).balances@
                &&& final(self).count == old(self).count
                &&& final(self).event_log@ == old(self).event_log@.push(
                    Event::PriceSet { kitty: kitty_id, owner: caller, new_price },
                )
                &&& same_config(*old(self), *final(self))
            },
    {
        let ghost s = *self;
        let ki = match self.find_kitty(&kitty_id) {
            Some(i) => i,
            None => {
                return Err(Error::NoKitty);
            },
        };
        proof {
            lemma_kitty_at(s.kitties@, ki as int);
        }
        let k = self.kitties[ki];
        if k.owner != caller {
            return Err(Error::NotOwner);
        }
        let k2 = Kitty { dna: k.dna, gender: k.gender, owner: caller, price: new_price };
        self.kitties[ki] = k2;
        self.event_log.push(Event::PriceSet { kitty: kitty_id, owner: caller, new_price });
        proof {
            let t = *self;
            lemma_id_ext(k.dna, kitty_id);
            lemma_store_update(s.kitties@, ki as int, k2);
            assert forall|i: int| 0 <= i < t.owned_index@.len() implies t.entry_ok(i) by {
                let a = t.owned_index@[i].0;
                let lst = t.owned_index@[i].1@;
                assert(s.entry_ok(i));
                assert forall|j: int|
                    0 <= j < lst.len() implies seq_has_dna(t.kitties@, (#[trigger] lst[j])@)
                    && t.kitty_d(lst[j]@).owner == a by {
                    assert(seq_has_dna(s.kitties@, lst[j]@));
                    if lst[j]@ == kitty_id@ {
                        assert(s.kitty_d(lst[j]@) == s.kitties@[ki as int]);
                        assert(t.kitty_d(lst[j]@) == k2);
                    } else {
                        assert(t.kitty_d(lst[j]@) == s.kitty_d(lst[j]@));
                    }
                }
            }
            assert forall|i: int|
                0 <= i < t.kitties@.len() implies contains_id(
                t.owned((#[trigger] t.kitties@[i]).owner),
                t.kitties@[i].dna@,
            ) by {
                if i == ki as int {
                    assert(contains_id(s.owned(k2.owner), s.kitties@[i].dna@));
                } else {
                    assert(t.kitties@[i] == s.kitties@[i]);
                }
            }
            assert(t.wf());
        }
        Ok(())
    }
}

/// Exactly when a transfer succeeds, and which error it reports otherwise
/// (first failing precondition wins).
pub open spec fn transfer_result(s: Registry, caller: u64, to: u64, id: [u8; 16]) -> Result<
    (),
    Error,
> {
    if !s.has_dna(id@) {
        Err(Error::NoKitty)
    } else if s.kitty_d(id@).owner != caller {
        Err(Error::NotOwner)
    } else if to == caller {
        Err(Error::TransferToSelf)
    } else if s.owned(to).len() >= s.max_owned {
        Err(Error::TooManyOwned)
    } else {
        Ok(())
    }
}

/// Exactly when a price change succeeds, and which error it reports
/// otherwise.
pub open spec fn set_price_result(s: Registry, caller: u64, id: [u8; 16]) -> Result<(), Error> {
    if !s.has_dna(id@) {
        Err(Error::NoKitty)
    } else if s.kitty_d(id@).owner != caller {
        Err(Error::NotOwner)
    } else {
        Ok(())
    }
}

/// Exactly when the ledger moves `amount` from `from` to `to`: the payer must
/// hold the amount, and crediting the payee must not overflow; a move to
/// oneself only checks the funds.
pub open spec fn ledger_result(s: Registry, from: u64, to: u64, amount: u64) -> Result<(), Error> {
    if s.balance_of(from) < amount {
        Err(Error::InsufficientBalance)
    } else if from != to && s.balance_of(to) + amount > u64::MAX {
        Err(Error::Overflow)
    } else {
        Ok(())
    }
}

/// The listed price of the asset `id` (zero when it is not for sale).
pub open spec fn spec_listed(s: Registry, id: Seq<u8>) -> u64 {
    match s.kitty_d(id).price {
        Option::Some(p) => p,
        Option::None => 0,
    }
}

/// Exactly when a purchase succeeds, and which error it reports otherwise
/// (first failing precondition wins; ledger failures surface verbatim).
pub open spec fn buy_result(s: Registry, buyer: u64, id: [u8; 16], bid: u64) -> Result<(), Error> {
    if !s.has_dna(id@) {
        Err(Error::NoKitty)
    } else {
        match s.kitty_d(id@).price {
            Option::None => Err(Error::NotForSale),
            Option::Some(listed) => if bid < listed {
                Err(Error::BidPriceTooLow)
            } else if s.owned(buyer).len() >= s.max_owned {
                Err(Error::TooManyOwned)
            } else {
                ledger_result(s, buyer, s.kitty_d(id@).owner, listed)
            },
        }
    }
}

/// Exactly when a fresh creation succeeds: capacity is checked first, then
/// the freshly generated identifier must not collide.
pub open spec fn create_result(s: Registry, caller: u64) -> Result<(), Error> {
    if s.owned(caller).len() >= s.max_owned {
        Err(Error::TooManyOwned)
    } else if s.has_dna(
        crate::dna::spec_gen_id(s.seed@, caller, s.block_number, s.extrinsic_index),
    ) {
        Err(Error::DuplicateKitty)
    } else {
        Ok(())
    }
}

/// Exactly when breeding succeeds, and which error it reports otherwise
/// (first failing precondition wins): both parents must exist, both must be
/// owned by the caller, they must be distinct assets of opposite gender, the
/// caller must have capacity, and the derived identifier must be fresh.
pub open spec fn breed_result(s: Registry, caller: u64, p1: [u8; 16], p2: [u8; 16]) -> Result<
    (),
    Error,
> {
    if !s.has_dna(p1@) || !s.has_dna(p2@) {
        Err(Error::NoKitty)
    } else if s.kitty_d(p1@).owner != caller || s.kitty_d(p2@).owner != caller {
        Err(Error::NotOwner)
    } else if p1@ == p2@ || s.kitty_d(p1@).gender == s.kitty_d(p2@).gender {
        Err(Error::CantBreed)
    } else if s.owned(caller).len() >= s.max_owned {
        Err(Error::TooManyOwned)
    } else if s.has_dna(
        crate::dna::spec_child_dna(
            crate::dna::spec_gen_id(s.seed@, caller, s.block_number, s.extrinsic_index),
            p1@,
            p2@,
        ),
    ) {
        Err(Error::DuplicateKitty)
    } else {
        Ok(())
    }
}

impl Registry {
    /// Moves `amount` from `from`'s free balance to `to`'s, atomically; a
    /// failure (insufficient funds, or overflow of the payee) changes
    /// nothing. Models the external ledger's transfer capability.
    fn ledger_transfer(&mut self, from: u64, to: u64, amount: u64) -> (r: Result<(), Error>)
        requires
            old(self).wf(),
        ensures
            final(self).wf(),
            r == ledger_result(*old(self), from, to, amount),
            r is Err ==> *final(self) == *old(self),
            r is Ok && from != to ==> final(self).balance_of(from) == old(self).balance_of(from)
                - amount && final(self).balance_of(to) == old(self).balance_of(to) + amount,
            r is Ok && from == to ==> final(self).balances@ == old(self).balances@,
            r is Ok ==> forall|a: u64|
                a != from && a != to ==> final(self).balance_of(a) == old(self).balance_of(a),
            final(self).kitties@ == old(self).kitties@,
            final(self).owned_index@ == old(self).owned_index@,
            final(self).count == old(self).count,
            final(self).event_log@ == old(self).event_log@,
            same_config(*old(self), *final(self)),
    {
        let ghost s = *self;
        let fb = match self.find_balance(from) {
            Some(i) => {
                proof {
                    lemma_key_at(s.balances@, i as int);
                }
                self.balances[i].1
            },
            None => 0,
        };
        assert(fb == s.balance_of(from));
        if fb < amount {
            return Err(Error::InsufficientBalance);
        }
        if from == to {
            return Ok(());
        }
        let tb = match self.find_balance(to) {
            Some(i) => {
                proof {
                    lemma_key_at(s.balances@, i as int);
                }
                self.balances[i].1
            },
            None => 0,
        };
        assert(tb == s.balance_of(to));
        if tb > u64::MAX - amount {
            return Err(Error::Overflow);
        }
        let oi_to = self.find_balance(to);
        let ghost m1: Seq<(u64, u64)>;
        let nb_from = fb - amount;
        match self.find_balance(from) {
            Some(i) => {
                self.balances[i] = (from, nb_from);
                proof {
                    m1 = self.balances@;
                    lemma_balance_update(s.balances@, i as int, nb_from);
                }
            },
            None => {
                // An absent entry reads as zero, so nothing is owed here.
                proof {
                    m1 = self.balances@;
                    assert(s.balance_of(from) == 0 && amount == 0);
                    assert forall|a: u64| balance_in(m1, a) == s.balance_of(a) by {}
                }
            },
        }
        proof {
            assert(keys_unique(m1));
            assert(balance_in(m1, from) == s.balance_of(from) - amount);
            assert forall|a: u64| a != from implies balance_in(m1, a) == s.balance_of(a) by {}
        }
        match oi_to {
            Some(j) => {
                proof {
                    lemma_key_at(s.balances@, j as int);
                    assert(m1[j as int].0 == to);
                    lemma_key_at(m1, j as int);
                    assert(m1[j as int].1 == tb);
                }
                let nb = self.balances[j].1 + amount;
                self.balances[j] = (to, nb);
                proof {
                    lemma_balance_update(m1, j as int, nb);
                }
            },
            None => {
                proof {
                    assert forall|x: int| 0 <= x < m1.len() implies m1[x].0 != to by {
                        if m1[x].0 == to {
                            assert(s.balances@[x].0 == to);
                            assert(seq_has_key(s.balances@, to));
                        }
                    }
                    lemma_key_absent(m1, to);
                }
                self.balances.push((to, amount));
                proof {
                    lemma_balance_push(m1, to, amount);
                }
            },
        }
        proof {
            let t = *self;
            assert(t.balance_of(to) == tb + amount);
            assert(t.balance_of(from) == s.balance_of(from) - amount);
            assert forall|i: int| 0 <= i < t.owned_index@.len() implies t.entry_ok(i) by {
                assert(s.entry_ok(i));
            }
            assert(t.wf());
        }
        Ok(())
    }

    /// Buys the asset `kitty_id` at its listed price (never at the bid, which
    /// is only the buyer's upper bound): the ledger moves the listed amount
    /// from the buyer to the seller, the asset changes owner and is delisted,
    /// all atomically; any failure leaves the registry unchanged.
    pub fn buy_kitty(&mut self, buyer: u64, kitty_id: [u8; 16], bid_price: u64) -> (r: Result<
        (),
        Error,
    >)
        requires
            old(self).wf(),
        ensures
            final(self).wf(),
            r == buy_result(*old(self), buyer, kitty_id, bid_price),
            r is Err ==> *final(self) == *old(self),
            r is Ok ==> moved(
                *old(self),
                *final(self),
                old(self).kitty_d(kitty_id@).owner,
                buyer,
                kitty_id,
            ),
            r is Ok ==> final(self).event_log@ == old(self).event_log@.push(
                Event::Sold {
                    seller: old(self).kitty_d(kitty_id@).owner,
                    buyer,
                    kitty: kitty_id,
                    price: spec_listed(*old(self), kitty_id@),
                },
            ),
            r is Ok && old(self).kitty_d(kitty_id@).owner != buyer ==> final(self).balance_of(buyer)
                == old(self).balance_of(buyer) - spec_listed(*old(self), kitty_id@),
            r is Ok && old(self).kitty_d(kitty_id@).owner != buyer ==> final(self).balance_of(
                old(self).kitty_d(kitty_id@).owner,
            ) == old(self).balance_of(old(self).kitty_d(kitty_id@).owner) + spec_listed(
                *old(self),
                kitty_id@,
            ),
            r is Ok && old(self).kitty_d(kitty_id@).owner == buyer ==> final(self).balances@
                == old(self).balances@,
            r is Ok ==> forall|a: u64|
                a != buyer && a != old(self).kitty_d(kitty_id@).owner ==> final(self).balance_of(a)
                    == old(self).balance_of(a),
    {
        let ghost s = *self;
        let ki = match self.find_kitty(&kitty_id) {
            Some(i) => i,
            None => {
                return Err(Error::NoKitty);
            },
        };
        proof {
            lemma_kitty_at(s.kitties@, ki as int);
        }
        let k = self.kitties[ki];
        let listed = match k.price {
            Some(p) => p,
            None => {
                return Err(Error::NotForSale);
            },
        };
        if bid_price < listed {
            return Err(Error::BidPriceTooLow);
        }
        let blen = self.owned_len(buyer);
        if blen >= self.max_owned as usize {
            return Err(Error::TooManyOwned);
        }
        let seller = k.owner;
        match self.ledger_transfer(buyer, seller, listed) {
            Err(e) => {
                return Err(e);
            },
            Ok(()) => {},
        }
        let ghost t1 = *self;
        proof {
            assert(t1.kitty_d(kitty_id@) == k);
            assert(t1.owned(buyer) == s.owned(buyer));
        }
        self.do_move(seller, buyer, kitty_id);
        let ghost t2 = *self;
        self.event_log.push(Event::Sold { seller, buyer, kitty: kitty_id, price: listed });
        proof {
            let t3 = *self;
            assert(t3.kitties@ == t2.kitties@);
            assert(t3.owned_index@ == t2.owned_index@);
            assert(t3.balances@ == t2.balances@);
            assert forall|i: int| 0 <= i < t3.owned_index@.len() implies t3.entry_ok(i) by {
                assert(t2.entry_ok(i));
            }
            assert(t3.wf());
            assert(moved(t1, t2, seller, buyer, kitty_id));
            assert(t1.kitties@ == s.kitties@);
            assert(t1.owned_index@ == s.owned_index@);
            assert forall|a: u64| t3.owned(a) == t2.owned(a) by {}
            assert forall|a: u64| t1.owned(a) == s.owned(a) by {}
            assert(t3.kitties@ == t2.kitties@);
            assert forall|d: Seq<u8>| t3.has_dna(d) == t2.has_dna(d) by {}
            assert forall|d: Seq<u8>| t1.has_dna(d) == s.has_dna(d) by {}
            assert forall|d: Seq<u8>| #[trigger] s.has_dna(d) && d != kitty_id@ implies t3.kitty_d(
                d,
            ) == s.kitty_d(d) by {
                assert(t1.has_dna(d));
                assert(t2.kitty_d(d) == t1.kitty_d(d));
                assert(t1.kitty_d(d) == s.kitty_d(d));
                assert(t3.kitty_d(d) == t2.kitty_d(d));
            }
            assert(moved(s, t3, seller, buyer, kitty_id));
        }
        Ok(())
    }

    /// Generates a fresh identifier/trait vector and gender from the current
    /// entropy seed, block height and operation sequence number and the
    /// calling account.
    pub fn gen_dna(&self, caller: u64) -> (r: ([u8; 16], Gender))
        ensures
            r.0@ == crate::dna::spec_gen_id(
                self.seed@,
                caller,
                self.block_number,
                self.extrinsic_index,
            ),
            r.1 == crate::dna::spec_gen_gender(
                self.seed@,
                caller,
                self.block_number,
                self.extrinsic_index,
            ),
    {
        crate::dna::gen_dna_from(&self.seed, caller, self.block_number, self.extrinsic_index)
    }

    /// Derives a child trait vector from two parents: every byte of the
    /// result is copied from the corresponding byte of one of the parents;
    /// the gender is derived independently of either parent.
    pub fn breed_dna(&self, caller: u64, parent_1: &[u8; 16], parent_2: &[u8; 16]) -> (r: (
        [u8; 16],
        Gender,
    ))
        ensures
            r.0@ == crate::dna::spec_child_dna(
                crate::dna::spec_gen_id(
                    self.seed@,
                    caller,
                    self.block_number,
                    self.extrinsic_index,
                ),
                parent_1@,
                parent_2@,
            ),
            forall|i: int| 0 <= i < 16 ==> r.0@[i] == parent_1@[i] || r.0@[i] == parent_2@[i],
            r.1 == crate::dna::spec_gen_gender(
                self.seed@,
                caller,
                self.block_number,
                self.extrinsic_index,
            ),
    {
        crate::dna::breed_dna_from(
            &self.seed,
            caller,
            self.block_number,
            self.extrinsic_index,
            parent_1,
            parent_2,
        )
    }

    /// Creates a fresh asset for the caller: capacity is checked first, then
    /// a fresh identifier and gender are generated and minted; a failure
    /// leaves the registry unchanged.
    pub fn create_kitty(&mut self, caller: u64) -> (r: Result<(), Error>)
        requires
            old(self).wf(),
        ensures
            final(self).wf(),
            r == create_result(*old(self), caller),
            r is Err ==> *final(self) == *old(self),
            r is Ok ==> minted_with(*old(self), *final(self), caller),
            r is Ok ==> final(self).kitties@.last().dna@ == crate::dna::spec_gen_id(
                old(self).seed@,
                caller,
                old(self).block_number,
                old(self).extrinsic_index,
            ),
            r is Ok ==> final(self).kitties@.last().gender == crate::dna::spec_gen_gender(
                old(self).seed@,
                caller,
                old(self).block_number,
                old(self).extrinsic_index,
            ),
    {
        let len = self.owned_len(caller);
        if len >= self.max_owned as usize {
            return Err(Error::TooManyOwned);
        }
        let (dna, gender) = crate::dna::gen_dna_from(
            &self.seed,
            caller,
            self.block_number,
            self.extrinsic_index,
        );
        self.mint(caller, dna, gender)
    }

    /// Breeds a child from two of the caller's assets of opposite gender:
    /// every byte of the child's trait vector comes from one of the parents,
    /// and the child is minted for the caller; a failure leaves the registry
    /// unchanged.
    pub fn breed_kitty(&mut self, caller: u64, parent_1: [u8; 16], parent_2: [u8; 16]) -> (r:
        Result<(), Error>)
        requires
            old(self).wf(),
        ensures
            final(self).wf(),
            r == breed_result(*old(self), caller, parent_1, parent_2),
            r is Err ==> *final(self) == *old(self),
            r is Ok ==> minted_with(*old(self), *final(self), caller),
            r is Ok ==> final(self).kitties@.last().dna@ == crate::dna::spec_child_dna(
                crate::dna::spec_gen_id(
                    old(self).seed@,
                    caller,
                    old(self).block_number,
                    old(self).extrinsic_index,
                ),
                parent_1@,
                parent_2@,
            ),
            r is Ok ==> forall|i: int|
                0 <= i < 16 ==> final(self).kitties@.last().dna@[i] == parent_1@[i]
                    || final(self).kitties@.last().dna@[i] == parent_2@[i],
            r is Ok ==> final(self).kitties@.last().gender == crate::dna::spec_gen_gender(
                old(self).seed@,
                caller,
                old(self).block_number,
                old(self).extrinsic_index,
            ),
    {
        let ki1 = match self.find_kitty(&parent_1) {
            Some(i) => i,
            None => {
                return Err(Error::NoKitty);
            },
        };
        let ki2 = match self.find_kitty(&parent_2) {
            Some(i) => i,
            None => {
                return Err(Error::NoKitty);
            },
        };
        proof {
            lemma_kitty_at(self.kitties@, ki1 as int);
            lemma_kitty_at(self.kitties@, ki2 as int);
        }
        let k1 = self.kitties[ki1];
        let k2 = self.kitties[ki2];
        if k1.owner != caller || k2.owner != caller {
            return Err(Error::NotOwner);
        }
        if id_eq(&parent_1, &parent_2) || k1.gender == k2.gender {
            return Err(Error::CantBreed);
        }
        let len = self.owned_len(caller);
        if len >= self.max_owned as usize {
            return Err(Error::TooManyOwned);
        }
        let (child, gender) = crate::dna::breed_dna_from(
            &self.seed,
            caller,
            self.block_number,
            self.extrinsic_index,
            &k1.dna,
            &k2.dna,
        );
        proof {
            assert(k1.dna@ == parent_1@ && k2.dna@ == parent_2@);
        }
        self.mint(caller, child, gender)
    }

    /// The global count of live assets.
    pub fn count_for_kitties(&self) -> (r: u64)
        ensures
            r == self.count,
    {
        self.count
    }

    /// The asset record for an identifier, if the store holds it.
    pub fn get_kitty(&self, kitty_id: [u8; 16]) -> (r: Option<Kitty>)
        requires
            self.wf(),
        ensures
            match r {
                Some(k) => self.has_dna(kitty_id@) && k == self.kitty_d(kitty_id@),
                None => !self.has_dna(kitty_id@),
            },
    {
        match self.find_kitty(&kitty_id) {
            Some(i) => {
                proof {
                    lemma_kitty_at(self.kitties@, i as int);
                }
                Some(self.kitties[i])
            },
            None => None,
        }
    }

    /// The ordered identifier list owned by an account, as a fresh vector.
    pub fn kitties_owned(&self, a: u64) -> (r: Vec<[u8; 16]>)
        requires
            self.wf(),
        ensures
            r@ == self.owned(a),
    {
        match self.find_owned(a) {
            Some(i) => {
                proof {
                    lemma_key_at(self.owned_index@, i as int);
                }
                let n = self.owned_index[i].1.len();
                let mut r: Vec<[u8; 16]> = Vec::new();
                let mut j: usize = 0;
                while j < n
                    invariant
                        j <= n,
                        i < self.owned_index@.len(),
                        n == self.owned_index@[i as int].1@.len(),
                        r@ == self.owned_index@[i as int].1@.subrange(0, j as int),
                    decreases n - j,
                {
                    r.push(self.owned_index[i].1[j]);
                    proof {
                        assert(r@ =~= self.owned_index@[i as int].1@.subrange(0, j + 1));
                    }
                    j = j + 1;
                }
                proof {
                    assert(r@ =~= self.owned_index@[i as int].1@);
                }
                r
            },
            None => {
                Vec::new()
            },
        }
    }

    /// The free balance of an account.
    pub fn free_balance(&self, a: u64) -> (r: u64)
        requires
            self.wf(),
        ensures
            r == self.balance_of(a),
    {
        match self.find_balance(a) {
            Some(i) => {
                proof {
                    lemma_key_at(self.balances@, i as int);
                }
                self.balances[i].1
            },
            None => 0,
        }
    }

    /// The configured per-account capacity bound.
    pub fn max_kitties_owned(&self) -> (r: u32)
        ensures
            r == self.max_owned,
    {
        self.max_owned
    }

    /// The current block height.
    pub fn block_number(&self) -> (r: u64)
        ensures
            r == self.block_number,
    {
        self.block_number
    }

    /// The events logged so far, oldest first.
    pub fn events(&self) -> (r: &Vec<Event>)
        ensures
            r@ == self.event_log@,
    {
        &self.event_log
    }

    /// Advances the environment's block height.
    pub fn set_block_number(&mut self, n: u64)
        requires
            old(self).wf(),
        ensures
            final(self).wf(),
            *final(self) == (Registry { block_number: n, ..*old(self) }),
    {
        self.block_number = n;
        proof {
            assert forall|i: int| 0 <= i < self.owned_index@.len() implies self.entry_ok(i) by {
                assert(old(self).entry_ok(i));
            }
        }
    }

    /// Advances the environment's per-block operation sequence number.
    pub fn set_extrinsic_index(&mut self, ei: u32)
        requires
            old(self).wf(),
        ensures
            final(self).wf(),
            *final(self) == (Registry { extrinsic_index: ei, ..*old(self) }),
    {
        self.extrinsic_index = ei;
        proof {
            assert forall|i: int| 0 <= i < self.owned_index@.len() implies self.entry_ok(i) by {
                assert(old(self).entry_ok(i));
            }
        }
    }

    /// Refreshes the environment's entropy seed.
    pub fn set_seed(&mut self, seed: [u8; 32])
        requires
            old(self).wf(),
        ensures
            final(self).wf(),
            *final(self) == (Registry { seed, ..*old(self) }),
    {
        self.seed = seed;
        proof {
            assert forall|i: int| 0 <= i < self.owned_index@.len() implies self.entry_ok(i) by {
                assert(old(self).entry_ok(i));
            }
        }
    }

    /// Sets an account's free balance outright (genesis endowment).
    pub fn set_balance(&mut self, a: u64, amount: u64)
        requires
            old(self).wf(),
        ensures
            final(self).wf(),
            final(self).balance_of(a) == amount,
            forall|b: u64| b != a ==> final(self).balance_of(b) == old(self).balance_of(b),
            final(self).kitties@ == old(self).kitties@,
            final(self).owned_index@ == old(self).owned_index@,
            final(self).count == old(self).count,
            final(self).event_log@ == old(self).event_log@,
            same_config(*old(self), *final(self)),
    {
        let ghost s = *self;
        match self.find_balance(a) {
            Some(i) => {
                self.balances[i] = (a, amount);
                proof {
                    lemma_balance_update(s.balances@, i as int, amount);
                }
            },
            None => {
                self.balances.push((a, amount));
                proof {
                    lemma_balance_push(s.balances@, a, amount);
                }
            },
        }
        proof {
            assert forall|i: int| 0 <= i < self.owned_index@.len() implies self.entry_ok(i) by {
                assert(s.entry_ok(i));
            }
            assert(self.wf());
        }
    }

    /// Whether the asset exists, is owned by `owner`, and is indexed under
    /// `owner` and under nobody else; with a well-formed registry this is
    /// exactly "the store records `owner` as the asset's owner".
    pub fn assert_ownership(&self, owner: u64, kitty_id: [u8; 16]) -> (r: bool)
        requires
            self.wf(),
        ensures
            r == (self.has_dna(kitty_id@) && self.kitty_d(kitty_id@).owner == owner),
            r ==> contains_id(self.owned(owner), kitty_id@),
            r ==> forall|a: u64| a != owner ==> !contains_id(self.owned(a), kitty_id@),
    {
        match self.find_kitty(&kitty_id) {
            Some(i) => {
                proof {
                    lemma_kitty_at(self.kitties@, i as int);
                }
                let r = self.kitties[i].owner == owner;
                proof {
                    if r {
                        lemma_ownership_consistent(*self, owner, kitty_id);
                        assert forall|a: u64| a != owner implies !contains_id(
                            self.owned(a),
                            kitty_id@,
                        ) by {
                            lemma_ownership_consistent(*self, a, kitty_id);
                        }
                    }
                }
                r
            },
            None => false,
        }
    }
}

/// Ownership consistency: an identifier appears in an account's ownership
/// index exactly when the asset store holds it with that account as owner
/// (and so it appears under exactly one account).
pub proof fn lemma_ownership_consistent(r: Registry, a: u64, id: [u8; 16])
    requires
        r.wf(),
    ensures
        contains_id(r.owned(a), id@) <==> (r.has_dna(id@) && r.kitty_d(id@).owner == a),
{
    if contains_id(r.owned(a), id@) {
        let j = choose|j: int| 0 <= j < r.owned(a).len() && r.owned(a)[j]@ == id@;
        assert(r.owned(a).len() > 0);
        assert(seq_has_key(r.owned_index@, a));
        let x = crate::store::seq_key_idx(r.owned_index@, a);
        assert(0 <= x < r.owned_index@.len() && r.owned_index@[x].0 == a);
        assert(r.entry_ok(x));
        assert(r.owned(a) == r.owned_index@[x].1@);
        assert(seq_has_dna(r.kitties@, id@) && r.kitty_d(id@).owner == a);
    }
    if r.has_dna(id@) && r.kitty_d(id@).owner == a {
        let i = crate::store::seq_dna_idx(r.kitties@, id@);
        assert(0 <= i < r.kitties@.len() && r.kitties@[i].dna@ == id@);
        assert(contains_id(r.owned(r.kitties@[i].owner), r.kitties@[i].dna@));
    }
}

/// Count consistency: the stored global count always equals the number of
/// live assets in the store.
pub proof fn lemma_count_consistent(r: Registry)
    requires
        r.wf(),
    ensures
        r.count == r.kitties@.len(),
{
}

/// Capacity: no account's ownership index ever exceeds the configured bound.
pub proof fn lemma_capacity(r: Registry, a: u64)
    requires
        r.wf(),
    ensures
        r.owned(a).len() <= r.max_owned,
{
    if seq_has_key(r.owned_index@, a) {
        let x = crate::store::seq_key_idx(r.owned_index@, a);
        assert(0 <= x < r.owned_index@.len() && r.owned_index@[x].0 == a);
        assert(r.entry_ok(x));
        assert(r.owned(a) == r.owned_index@[x].1@);
    }
}

} // verus!
