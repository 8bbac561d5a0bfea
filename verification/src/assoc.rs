//! Association lists keyed by strings, at the specification level: the tree
//! cache and the metadata store both model their contents as a sequence of
//! key–value pairs with pairwise distinct keys.

use vstd::prelude::*;

verus! {

/// The list holds an entry under this key.
pub open spec fn assoc_has_key<V>(c: Seq<(Seq<char>, V)>, key: Seq<char>) -> bool
    decreases c.len(),
{
    if c.len() == 0 {
        false
    } else {
        c.last().0 == key || assoc_has_key(c.drop_last(), key)
    }
}

/// The value the list holds under this key.
pub open spec fn assoc_value<V>(c: Seq<(Seq<char>, V)>, key: Seq<char>) -> V
    decreases c.len(),
{
    if c.len() == 0 {
        arbitrary()
    } else if c.last().0 == key {
        c.last().1
    } else {
        assoc_value(c.drop_last(), key)
    }
}

/// No two entries share a key.
pub open spec fn assoc_keys_unique<V>(c: Seq<(Seq<char>, V)>) -> bool {
    forall|i: int, j: int| 0 <= i < j < c.len() ==> (#[trigger] c[i]).0 != (#[trigger] c[j]).0
}

/// A key of the list, with at least that key's length.
pub open spec fn assoc_max_key_len<V>(c: Seq<(Seq<char>, V)>) -> nat
    decreases c.len(),
{
    if c.len() == 0 {
        0
    } else if c.last().0.len() > assoc_max_key_len(c.drop_last()) {
        c.last().0.len()
    } else {
        assoc_max_key_len(c.drop_last())
    }
}

/// A held key is never longer than the longest key.
pub proof fn lemma_assoc_key_len_le_max<V>(c: Seq<(Seq<char>, V)>, key: Seq<char>)
    requires
        assoc_has_key(c, key),
    ensures
        key.len() <= assoc_max_key_len(c),
    decreases c.len(),
{
    if c.len() > 0 && c.last().0 != key {
        lemma_assoc_key_len_le_max(c.drop_last(), key);
    }
}

/// A key an entry carries is held, and under unique keys its value is that
/// entry's value.
pub proof fn lemma_assoc_entry_at<V>(c: Seq<(Seq<char>, V)>, i: int)
    requires
        assoc_keys_unique(c),
        0 <= i < c.len(),
    ensures
        assoc_has_key(c, c[i].0),
        assoc_value(c, c[i].0) == c[i].1,
    decreases c.len(),
{
    if i == c.len() - 1 {
    } else {
        assert(c[i].0 != c.last().0);
        assert(c.drop_last()[i] == c[i]);
        lemma_assoc_entry_at(c.drop_last(), i);
    }
}

/// Holding a key means holding an entry with that key.
pub proof fn lemma_assoc_has_key_exists<V>(c: Seq<(Seq<char>, V)>, key: Seq<char>)
    ensures
        assoc_has_key(c, key) <==> exists|i: int| 0 <= i < c.len() && (#[trigger] c[i]).0 == key,
    decreases c.len(),
{
    if c.len() > 0 {
        lemma_assoc_has_key_exists(c.drop_last(), key);
        if c.last().0 == key {
            assert(c[c.len() - 1].0 == key);
        } else if assoc_has_key(c.drop_last(), key) {
            let i = choose|i: int|
                0 <= i < c.drop_last().len() && (#[trigger] c.drop_last()[i]).0 == key;
            assert(c[i].0 == key);
        } else {
            assert forall|i: int| 0 <= i < c.len() implies (#[trigger] c[i]).0 != key by {
                if i < c.len() - 1 {
                    assert(c.drop_last()[i] == c[i]);
                }
            }
        }
    }
}

/// Replacing the value of entry `i` keeps every other key's value and
/// changes no key.
pub proof fn lemma_assoc_update<V>(c: Seq<(Seq<char>, V)>, i: int, value: V)
    requires
        assoc_keys_unique(c),
        0 <= i < c.len(),
    ensures
        forall|k: Seq<char>|
            assoc_has_key(#[trigger] c.update(i, (c[i].0, value)), k) == assoc_has_key(c, k),
        assoc_value(c.update(i, (c[i].0, value)), c[i].0) == value,
        forall|k: Seq<char>|
            k != c[i].0 && assoc_has_key(c, k) ==> #[trigger] assoc_value(
                c.update(i, (c[i].0, value)),
                k,
            ) == assoc_value(c, k),
        assoc_keys_unique(c.update(i, (c[i].0, value))),
{
    let u = c.update(i, (c[i].0, value));
    assert(forall|w: int| 0 <= w < c.len() ==> (#[trigger] u[w]).0 == c[w].0);
    assert forall|p: int, q: int| 0 <= p < q < u.len() implies (#[trigger] u[p]).0 != (
    #[trigger] u[q]).0 by {
        assert(u[p].0 == c[p].0 && u[q].0 == c[q].0);
    }
    assert forall|k: Seq<char>| #[trigger] assoc_has_key(u, k) == assoc_has_key(c, k) by {
        lemma_assoc_has_key_exists(u, k);
        lemma_assoc_has_key_exists(c, k);
        if assoc_has_key(u, k) {
            let w = choose|w: int| 0 <= w < u.len() && (#[trigger] u[w]).0 == k;
            assert(c[w].0 == k);
        }
        if assoc_has_key(c, k) {
            let w = choose|w: int| 0 <= w < c.len() && (#[trigger] c[w]).0 == k;
            assert(u[w].0 == k);
        }
    }
    lemma_assoc_entry_at(u, i);
    assert forall|k: Seq<char>| k != c[i].0 && assoc_has_key(c, k) implies #[trigger] assoc_value(
        u,
        k,
    ) == assoc_value(c, k) by {
        lemma_assoc_has_key_exists(c, k);
        let w = choose|w: int| 0 <= w < c.len() && (#[trigger] c[w]).0 == k;
        assert(w != i);
        assert(u[w] == c[w]);
        lemma_assoc_entry_at(c, w);
        lemma_assoc_entry_at(u, w);
    }
}

/// Removing entry `i` removes exactly its key and keeps every other key's
/// value.
pub proof fn lemma_assoc_remove<V>(c: Seq<(Seq<char>, V)>, i: int)
    requires
        assoc_keys_unique(c),
        0 <= i < c.len(),
    ensures
        forall|k: Seq<char>|
            assoc_has_key(#[trigger] c.remove(i), k) == (assoc_has_key(c, k) && k != c[i].0),
        forall|k: Seq<char>|
            k != c[i].0 && assoc_has_key(c, k) ==> #[trigger] assoc_value(c.remove(i), k)
                == assoc_value(c, k),
        assoc_keys_unique(c.remove(i)),
{
    let u = c.remove(i);
    assert(forall|w: int| 0 <= w < i ==> (#[trigger] u[w]) == c[w]);
    assert(forall|w: int| i <= w < u.len() ==> (#[trigger] u[w]) == c[w + 1]);
    assert forall|p: int, q: int| 0 <= p < q < u.len() implies (#[trigger] u[p]).0 != (
    #[trigger] u[q]).0 by {
        let cp: int = if p < i {
            p
        } else {
            p + 1
        };
        let cq: int = if q < i {
            q
        } else {
            q + 1
        };
        assert(u[p] == c[cp] && u[q] == c[cq]);
    }
    assert forall|k: Seq<char>| #[trigger] assoc_has_key(u, k) == (assoc_has_key(c, k) && k
        != c[i].0) by {
        lemma_assoc_has_key_exists(u, k);
        lemma_assoc_has_key_exists(c, k);
        if assoc_has_key(u, k) {
            let w = choose|w: int| 0 <= w < u.len() && (#[trigger] u[w]).0 == k;
            let cw: int = if w < i {
                w
            } else {
                w + 1
            };
            assert(c[cw].0 == k);
            assert(cw != i);
        }
        if assoc_has_key(c, k) && k != c[i].0 {
            let w = choose|w: int| 0 <= w < c.len() && (#[trigger] c[w]).0 == k;
            assert(w != i);
            let uw: int = if w < i {
                w
            } else {
                w - 1
            };
            assert(u[uw].0 == k);
        }
    }
    assert forall|k: Seq<char>| k != c[i].0 && assoc_has_key(c, k) implies #[trigger] assoc_value(
        u,
        k,
    ) == assoc_value(c, k) by {
        lemma_assoc_has_key_exists(c, k);
        let w = choose|w: int| 0 <= w < c.len() && (#[trigger] c[w]).0 == k;
        assert(w != i);
        let uw: int = if w < i {
            w
        } else {
            w - 1
        };
        assert(u[uw] == c[w]);
        lemma_assoc_entry_at(c, w);
        lemma_assoc_entry_at(u, uw);
    }
}

} // verus!
