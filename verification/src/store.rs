//! The durable shapes of the registry: the asset record, and association
//! sequences with unique keys that model the identifier-to-asset map, the
//! per-account ownership index and the account ledger.

use vstd::prelude::*;

use crate::dna::Gender;

verus! {

/// An asset record: an immutable identifier doubling as the trait vector,
/// an immutable gender, a mutable owner and a mutable sale price
/// (`None` means "not listed for sale").
#[derive(Clone, Copy, Debug)]
pub struct Kitty {
    pub dna: [u8; 16],
    pub gender: Gender,
    pub owner: u64,
    pub price: Option<u64>,
}

/// Whether some asset in the store carries the identifier `d`.
pub open spec fn seq_has_dna(ks: Seq<Kitty>, d: Seq<u8>) -> bool {
    exists|i: int| 0 <= i < ks.len() && ks[i].dna@ == d
}

/// The position of the asset with identifier `d` (meaningful when the store
/// holds it and identifiers are unique).
pub open spec fn seq_dna_idx(ks: Seq<Kitty>, d: Seq<u8>) -> int {
    choose|i: int| 0 <= i < ks.len() && ks[i].dna@ == d
}

/// The asset with identifier `d`.
pub open spec fn seq_kitty(ks: Seq<Kitty>, d: Seq<u8>) -> Kitty {
    ks[seq_dna_idx(ks, d)]
}

/// Identifiers are globally unique across the store.
pub open spec fn seq_dnas_unique(ks: Seq<Kitty>) -> bool {
    forall|i: int, j: int| 0 <= i < j < ks.len() ==> ks[i].dna@ != ks[j].dna@
}

/// Whether the association sequence has an entry keyed by account `a`.
pub open spec fn seq_has_key<T>(s: Seq<(u64, T)>, a: u64) -> bool {
    exists|i: int| 0 <= i < s.len() && s[i].0 == a
}

/// The position of the entry keyed by `a` (meaningful when present and keys
/// are unique).
pub open spec fn seq_key_idx<T>(s: Seq<(u64, T)>, a: u64) -> int {
    choose|i: int| 0 <= i < s.len() && s[i].0 == a
}

/// Keys occur at most once.
pub open spec fn keys_unique<T>(s: Seq<(u64, T)>) -> bool {
    forall|i: int, j: int| 0 <= i < j < s.len() ==> s[i].0 != s[j].0
}

/// The ordered identifier list owned by account `a`; an absent entry reads as
/// the empty list.
pub open spec fn owned_of(s: Seq<(u64, Vec<[u8; 16]>)>, a: u64) -> Seq<[u8; 16]> {
    if seq_has_key(s, a) {
        s[seq_key_idx(s, a)].1@
    } else {
        Seq::empty()
    }
}

/// The free balance of account `a`; an absent entry reads as zero.
pub open spec fn balance_in(s: Seq<(u64, u64)>, a: u64) -> u64 {
    if seq_has_key(s, a) {
        s[seq_key_idx(s, a)].1
    } else {
        0
    }
}

/// Whether the identifier list holds the identifier `d`, compared by bytes.
pub open spec fn contains_id(lst: Seq<[u8; 16]>, d: Seq<u8>) -> bool {
    exists|j: int| 0 <= j < lst.len() && lst[j]@ == d
}

/// Two identifier arrays with equal byte views are the same array.
pub proof fn lemma_id_ext(a: [u8; 16], b: [u8; 16])
    requires
        a@ == b@,
    ensures
        a == b,
{
    assert(forall|i: int| 0 <= i < 16 ==> a[i] == b[i]);
    assert(a =~= b);
}

pub proof fn lemma_kitty_at(ks: Seq<Kitty>, i: int)
    requires
        seq_dnas_unique(ks),
        0 <= i < ks.len(),
    ensures
        seq_has_dna(ks, ks[i].dna@),
        seq_dna_idx(ks, ks[i].dna@) == i,
        seq_kitty(ks, ks[i].dna@) == ks[i],
{
    let d = ks[i].dna@;
    assert(0 <= i < ks.len() && ks[i].dna@ == d);
    let j = seq_dna_idx(ks, d);
    assert(0 <= j < ks.len() && ks[j].dna@ == d);
    if j < i {
        assert(ks[j].dna@ != ks[i].dna@);
    } else if i < j {
        assert(ks[i].dna@ != ks[j].dna@);
    }
}

pub proof fn lemma_key_at<T>(s: Seq<(u64, T)>, i: int)
    requires
        keys_unique(s),
        0 <= i < s.len(),
    ensures
        seq_has_key(s, s[i].0),
        seq_key_idx(s, s[i].0) == i,
{
    let a = s[i].0;
    assert(0 <= i < s.len() && s[i].0 == a);
    let j = seq_key_idx(s, a);
    assert(0 <= j < s.len() && s[j].0 == a);
    if j < i {
        assert(s[j].0 != s[i].0);
    } else if i < j {
        assert(s[i].0 != s[j].0);
    }
}

pub proof fn lemma_key_absent<T>(s: Seq<(u64, T)>, a: u64)
    requires
        forall|i: int| 0 <= i < s.len() ==> s[i].0 != a,
    ensures
        !seq_has_key(s, a),
{
}

/// Appending an asset with a fresh identifier: every old asset is still found
/// unchanged, and the new identifier is found at the end.
pub proof fn lemma_store_push(ks: Seq<Kitty>, k: Kitty)
    requires
        seq_dnas_unique(ks),
        !seq_has_dna(ks, k.dna@),
    ensures
        seq_dnas_unique(ks.push(k)),
        forall|d: Seq<u8>|
            #[trigger] seq_has_dna(ks, d) ==> seq_has_dna(ks.push(k), d) && seq_kitty(
                ks.push(k),
                d,
            ) == seq_kitty(ks, d),
        forall|d: Seq<u8>|
            #[trigger] seq_has_dna(ks.push(k), d) <==> (seq_has_dna(ks, d) || d == k.dna@),
        seq_has_dna(ks.push(k), k.dna@),
        seq_kitty(ks.push(k), k.dna@) == k,
{
    let t = ks.push(k);
    assert forall|i: int| 0 <= i < ks.len() implies ks[i].dna@ != k.dna@ by {
        if ks[i].dna@ == k.dna@ {
            assert(seq_has_dna(ks, k.dna@));
        }
    }
    assert(seq_dnas_unique(t));
    assert forall|d: Seq<u8>| #[trigger] seq_has_dna(ks, d) implies seq_has_dna(t, d) && seq_kitty(
        t,
        d,
    ) == seq_kitty(ks, d) by {
        let i = seq_dna_idx(ks, d);
        assert(0 <= i < ks.len() && ks[i].dna@ == d);
        assert(t[i].dna@ == d);
        lemma_kitty_at(t, i);
        lemma_kitty_at(ks, i);
    }
    assert forall|d: Seq<u8>| #[trigger] seq_has_dna(t, d) implies (seq_has_dna(ks, d) || d
        == k.dna@) by {
        let i = seq_dna_idx(t, d);
        assert(0 <= i < t.len() && t[i].dna@ == d);
        if i < ks.len() {
            assert(ks[i].dna@ == d);
        }
    }
    assert(t[ks.len() as int] == k);
    lemma_kitty_at(t, ks.len() as int);
}

/// Replacing the asset at `i` by one with the same identifier: lookups of
/// every other identifier are unchanged, and the identifier at `i` now reads
/// the replacement.
pub proof fn lemma_store_update(ks: Seq<Kitty>, i: int, k: Kitty)
    requires
        seq_dnas_unique(ks),
        0 <= i < ks.len(),
        k.dna@ == ks[i].dna@,
    ensures
        seq_dnas_unique(ks.update(i, k)),
        forall|d: Seq<u8>| seq_has_dna(ks.update(i, k), d) <==> #[trigger] seq_has_dna(ks, d),
        seq_kitty(ks.update(i, k), k.dna@) == k,
        forall|d: Seq<u8>|
            #[trigger] seq_has_dna(ks, d) && d != k.dna@ ==> seq_kitty(ks.update(i, k), d)
                == seq_kitty(ks, d),
{
    let t = ks.update(i, k);
    assert(seq_dnas_unique(t));
    assert forall|d: Seq<u8>| seq_has_dna(t, d) <==> #[trigger] seq_has_dna(ks, d) by {
        if seq_has_dna(t, d) {
            let x = seq_dna_idx(t, d);
            assert(0 <= x < ks.len() && ks[x].dna@ == d);
        }
        if seq_has_dna(ks, d) {
            let x = seq_dna_idx(ks, d);
            assert(0 <= x < t.len() && t[x].dna@ == d);
        }
    }
    lemma_kitty_at(t, i);
    assert forall|d: Seq<u8>| #[trigger] seq_has_dna(ks, d) && d != k.dna@ implies seq_kitty(t, d)
        == seq_kitty(ks, d) by {
        let x = seq_dna_idx(ks, d);
        assert(0 <= x < ks.len() && ks[x].dna@ == d);
        assert(x != i);
        assert(t[x].dna@ == d);
        lemma_kitty_at(t, x);
        lemma_kitty_at(ks, x);
    }
}

/// Replacing the identifier list at entry `i` with a new list: the list read
/// for that entry's account becomes the new list, every other account reads
/// as before.
pub proof fn lemma_owned_update(s: Seq<(u64, Vec<[u8; 16]>)>, i: int, lst: Vec<[u8; 16]>)
    requires
        keys_unique(s),
        0 <= i < s.len(),
    ensures
        keys_unique(s.update(i, (s[i].0, lst))),
        owned_of(s.update(i, (s[i].0, lst)), s[i].0) == lst@,
        forall|a: u64| a != s[i].0 ==> owned_of(s.update(i, (s[i].0, lst)), a) == owned_of(s, a),
{
    let t = s.update(i, (s[i].0, lst));
    assert(keys_unique(t));
    lemma_key_at(t, i);
    assert forall|a: u64| a != s[i].0 implies owned_of(t, a) == owned_of(s, a) by {
        if seq_has_key(s, a) {
            let x = seq_key_idx(s, a);
            assert(0 <= x < s.len() && s[x].0 == a);
            assert(x != i);
            assert(t[x].0 == a);
            lemma_key_at(t, x);
            lemma_key_at(s, x);
            assert(t[x] == s[x]);
        } else {
            assert forall|x: int| 0 <= x < t.len() implies t[x].0 != a by {
                if t[x].0 == a {
                    assert(x != i);
                    assert(s[x].0 == a);
                    assert(seq_has_key(s, a));
                }
            }
            lemma_key_absent(t, a);
        }
    }
}

/// Appending a new entry for an account with no entry yet: that account now
/// reads the new list, every other account reads as before.
pub proof fn lemma_owned_push(s: Seq<(u64, Vec<[u8; 16]>)>, a: u64, lst: Vec<[u8; 16]>)
    requires
        keys_unique(s),
        !seq_has_key(s, a),
    ensures
        keys_unique(s.push((a, lst))),
        owned_of(s.push((a, lst)), a) == lst@,
        forall|b: u64| b != a ==> owned_of(s.push((a, lst)), b) == owned_of(s, b),
{
    let t = s.push((a, lst));
    assert forall|i: int| 0 <= i < s.len() implies s[i].0 != a by {
        if s[i].0 == a {
            assert(seq_has_key(s, a));
        }
    }
    assert(keys_unique(t));
    assert(t[s.len() as int].0 == a);
    lemma_key_at(t, s.len() as int);
    assert forall|b: u64| b != a implies owned_of(t, b) == owned_of(s, b) by {
        if seq_has_key(s, b) {
            let x = seq_key_idx(s, b);
            assert(0 <= x < s.len() && s[x].0 == b);
            assert(t[x].0 == b);
            lemma_key_at(t, x);
            lemma_key_at(s, x);
            assert(t[x] == s[x]);
        } else {
            assert forall|x: int| 0 <= x < t.len() implies t[x].0 != b by {
                if t[x].0 == b {
                    assert(x < s.len());
                    assert(seq_has_key(s, b));
                }
            }
            lemma_key_absent(t, b);
        }
    }
}

/// Replacing the balance at entry `i`: that entry's account reads the new
/// amount, every other account reads as before.
pub proof fn lemma_balance_update(s: Seq<(u64, u64)>, i: int, v: u64)
    requires
        keys_unique(s),
        0 <= i < s.len(),
    ensures
        keys_unique(s.update(i, (s[i].0, v))),
        balance_in(s.update(i, (s[i].0, v)), s[i].0) == v,
        forall|a: u64| a != s[i].0 ==> balance_in(s.update(i, (s[i].0, v)), a) == balance_in(s, a),
{
    let t = s.update(i, (s[i].0, v));
    assert(keys_unique(t));
    lemma_key_at(t, i);
    assert forall|a: u64| a != s[i].0 implies balance_in(t, a) == balance_in(s, a) by {
        if seq_has_key(s, a) {
            let x = seq_key_idx(s, a);
            assert(0 <= x < s.len() && s[x].0 == a);
            assert(x != i);
            assert(t[x].0 == a);
            lemma_key_at(t, x);
            lemma_key_at(s, x);
            assert(t[x] == s[x]);
        } else {
            assert forall|x: int| 0 <= x < t.len() implies t[x].0 != a by {
                if t[x].0 == a {
                    assert(x != i);
                    assert(s[x].0 == a);
                    assert(seq_has_key(s, a));
                }
            }
            lemma_key_absent(t, a);
        }
    }
}

/// Appending a balance entry for an account with no entry yet.
pub proof fn lemma_balance_push(s: Seq<(u64, u64)>, a: u64, v: u64)
    requires
        keys_unique(s),
        !seq_has_key(s, a),
    ensures
        keys_unique(s.push((a, v))),
        balance_in(s.push((a, v)), a) == v,
        forall|b: u64| b != a ==> balance_in(s.push((a, v)), b) == balance_in(s, b),
{
    let t = s.push((a, v));
    assert forall|i: int| 0 <= i < s.len() implies s[i].0 != a by {
        if s[i].0 == a {
            assert(seq_has_key(s, a));
        }
    }
    assert(keys_unique(t));
    assert(t[s.len() as int].0 == a);
    lemma_key_at(t, s.len() as int);
    assert forall|b: u64| b != a implies balance_in(t, b) == balance_in(s, b) by {
        if seq_has_key(s, b) {
            let x = seq_key_idx(s, b);
            assert(0 <= x < s.len() && s[x].0 == b);
            assert(t[x].0 == b);
            lemma_key_at(t, x);
            lemma_key_at(s, x);
            assert(t[x] == s[x]);
        } else {
            assert forall|x: int| 0 <= x < t.len() implies t[x].0 != b by {
                if t[x].0 == b {
                    assert(x < s.len());
                    assert(seq_has_key(s, b));
                }
            }
            lemma_key_absent(t, b);
        }
    }
}

} // verus!
