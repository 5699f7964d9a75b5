//! Sequences of records looked up by identifier, the way a map keyed by
//! identifier behaves when every identifier occurs at most once.

use vstd::prelude::*;

use crate::structs::{GameView, LobbyView, PlayerView};

verus! {

/// A record with an identifier.
pub trait Keyed {
    spec fn key(&self) -> u128;
}

impl Keyed for PlayerView {
    open spec fn key(&self) -> u128 {
        self.id
    }
}

impl Keyed for LobbyView {
    open spec fn key(&self) -> u128 {
        self.id
    }
}

impl Keyed for GameView {
    open spec fn key(&self) -> u128 {
        self.id
    }
}

/// No identifier occurs twice.
pub open spec fn unique_keys<T: Keyed>(s: Seq<T>) -> bool {
    forall|i: int, j: int|
        0 <= i < s.len() && 0 <= j < s.len() && i != j ==> #[trigger] s[i].key() != #[trigger] s[j].key()
}

/// Some record has the identifier.
pub open spec fn has_key<T: Keyed>(s: Seq<T>, k: u128) -> bool {
    exists|i: int| 0 <= i < s.len() && #[trigger] s[i].key() == k
}

/// A position of a record with the identifier.
pub open spec fn key_index<T: Keyed>(s: Seq<T>, k: u128) -> int {
    choose|i: int| 0 <= i < s.len() && #[trigger] s[i].key() == k
}

/// The record with the identifier, if any.
pub open spec fn lookup<T: Keyed>(s: Seq<T>, k: u128) -> Option<T> {
    if has_key(s, k) {
        Some(s[key_index(s, k)])
    } else {
        None
    }
}

/// The records without the one that has the identifier.
pub open spec fn remove_key<T: Keyed>(s: Seq<T>, k: u128) -> Seq<T> {
    if has_key(s, k) {
        s.remove(key_index(s, k))
    } else {
        s
    }
}

/// The records with `v` in place of the one with its identifier, or with `v`
/// added at the end when there is none.
pub open spec fn insert_key<T: Keyed>(s: Seq<T>, v: T) -> Seq<T> {
    if has_key(s, v.key()) {
        s.update(key_index(s, v.key()), v)
    } else {
        s.push(v)
    }
}

/// The records with `v` in place of the one with identifier `k`, if any.
pub open spec fn replace_key<T: Keyed>(s: Seq<T>, k: u128, v: T) -> Seq<T> {
    if has_key(s, k) {
        s.update(key_index(s, k), v)
    } else {
        s
    }
}

/// In a sequence without repeated identifiers, the position of an identifier
/// is the one where it stands.
pub proof fn lemma_key_index<T: Keyed>(s: Seq<T>, i: int)
    requires
        unique_keys(s),
        0 <= i < s.len(),
    ensures
        has_key(s, s[i].key()),
        key_index(s, s[i].key()) == i,
        lookup(s, s[i].key()) == Some(s[i]),
{
    let k = s[i].key();
    assert(s[i].key() == k);
    let j = key_index(s, k);
    assert(0 <= j < s.len() && s[j].key() == k);
}

/// Removing a record keeps identifiers unique.
pub proof fn lemma_unique_remove<T: Keyed>(s: Seq<T>, i: int)
    requires
        unique_keys(s),
        0 <= i < s.len(),
    ensures
        unique_keys(s.remove(i)),
{
    let r = s.remove(i);
    assert forall|a: int, b: int|
        0 <= a < r.len() && 0 <= b < r.len() && a != b implies #[trigger] r[a].key() != #[trigger] r[b].key() by {
        let a2 = if a < i { a } else { a + 1 };
        let b2 = if b < i { b } else { b + 1 };
        assert(r[a] == s[a2]);
        assert(r[b] == s[b2]);
    }
}

/// Replacing a record by one with the same identifier keeps identifiers
/// unique.
pub proof fn lemma_unique_update<T: Keyed>(s: Seq<T>, i: int, v: T)
    requires
        unique_keys(s),
        0 <= i < s.len(),
        v.key() == s[i].key(),
    ensures
        unique_keys(s.update(i, v)),
{
    let r = s.update(i, v);
    assert forall|a: int, b: int|
        0 <= a < r.len() && 0 <= b < r.len() && a != b implies #[trigger] r[a].key() != #[trigger] r[b].key() by {
        assert(r[a].key() == s[a].key());
        assert(r[b].key() == s[b].key());
    }
}

/// Adding a record with a new identifier keeps identifiers unique.
pub proof fn lemma_unique_push<T: Keyed>(s: Seq<T>, v: T)
    requires
        unique_keys(s),
        !has_key(s, v.key()),
    ensures
        unique_keys(s.push(v)),
{
    let r = s.push(v);
    assert forall|a: int, b: int|
        0 <= a < r.len() && 0 <= b < r.len() && a != b implies #[trigger] r[a].key() != #[trigger] r[b].key() by {
        if a < s.len() && b < s.len() {
            assert(r[a] == s[a] && r[b] == s[b]);
        } else if a < s.len() {
            assert(r[a] == s[a]);
            assert(s[a].key() == s[a].key());
        } else {
            assert(r[b] == s[b]);
            assert(s[b].key() == s[b].key());
        }
    }
}

/// Changing records without changing their identifiers keeps identifiers
/// unique.
pub proof fn lemma_unique_same_keys<T: Keyed>(a: Seq<T>, b: Seq<T>)
    requires
        unique_keys(a),
        a.len() == b.len(),
        forall|i: int| 0 <= i < a.len() ==> #[trigger] b[i].key() == a[i].key(),
    ensures
        unique_keys(b),
{
    assert forall|x: int, y: int|
        0 <= x < b.len() && 0 <= y < b.len() && x != y implies #[trigger] b[x].key() != #[trigger] b[y].key() by {
        assert(b[x].key() == a[x].key());
        assert(b[y].key() == a[y].key());
    }
}

/// Records with the same identifiers in place have the same identifiers.
pub proof fn lemma_same_keys_has_key<T: Keyed>(a: Seq<T>, b: Seq<T>, k: u128)
    requires
        a.len() == b.len(),
        forall|i: int| 0 <= i < a.len() ==> #[trigger] b[i].key() == a[i].key(),
    ensures
        has_key(b, k) == has_key(a, k),
{
    if has_key(a, k) {
        let i = choose|i: int| 0 <= i < a.len() && #[trigger] a[i].key() == k;
        assert(b[i].key() == k);
    }
    if has_key(b, k) {
        let i = choose|i: int| 0 <= i < b.len() && #[trigger] b[i].key() == k;
        assert(a[i].key() == k);
    }
}

/// Keeping only some records keeps identifiers unique.
pub proof fn lemma_unique_filter<T: Keyed>(s: Seq<T>, p: spec_fn(T) -> bool)
    requires
        unique_keys(s),
    ensures
        unique_keys(s.filter(p)),
    decreases s.len(),
{
    reveal(Seq::filter);
    if s.len() > 0 {
        let d = s.drop_last();
        assert forall|a: int, b: int|
            0 <= a < d.len() && 0 <= b < d.len() && a != b implies #[trigger] d[a].key() != #[trigger] d[b].key() by {
            assert(d[a] == s[a] && d[b] == s[b]);
        }
        lemma_unique_filter(d, p);
        let f = d.filter(p);
        if p(s.last()) {
            let r = f.push(s.last());
            assert forall|a: int, b: int|
                0 <= a < r.len() && 0 <= b < r.len() && a != b implies #[trigger] r[a].key() != #[trigger] r[b].key() by {
                if a < f.len() && b < f.len() {
                    assert(r[a] == f[a] && r[b] == f[b]);
                } else {
                    let x = if a < f.len() { a } else { b };
                    assert(r[x] == f[x]);
                    assert(f.contains(f[x]));
                    d.lemma_filter_contains_rev(p, f[x]);
                    let j = choose|j: int| 0 <= j < d.len() && d[j] == f[x];
                    assert(s[j] == d[j]);
                    assert(s[j].key() != s[s.len() - 1].key());
                }
            }
        }
    }
}

/// Inserting keeps identifiers unique.
pub proof fn lemma_unique_insert<T: Keyed>(s: Seq<T>, v: T)
    requires
        unique_keys(s),
    ensures
        unique_keys(insert_key(s, v)),
{
    if has_key(s, v.key()) {
        let i = key_index(s, v.key());
        lemma_unique_update(s, i, v);
    } else {
        lemma_unique_push(s, v);
    }
}

/// Removing by identifier keeps identifiers unique.
pub proof fn lemma_unique_remove_key<T: Keyed>(s: Seq<T>, k: u128)
    requires
        unique_keys(s),
    ensures
        unique_keys(remove_key(s, k)),
{
    if has_key(s, k) {
        lemma_unique_remove(s, key_index(s, k));
    }
}

} // verus!
