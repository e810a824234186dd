//! Association lists with distinct keys: the representation behind the
//! library's maps, with the lemmas that insertion and removal preserve the
//! one-entry-per-key invariant.

use vstd::prelude::*;

verus! {

/// No key appears twice.
pub open spec fn distinct_keys<K, V>(s: Seq<(K, V)>) -> bool {
    forall|i: int, j: int| 0 <= i < j < s.len() ==> (#[trigger] s[i]).0 != (#[trigger] s[j]).0
}

/// The list holds an entry for this key.
pub open spec fn contains_key<K, V>(s: Seq<(K, V)>, key: K) -> bool {
    exists|i: int| 0 <= i < s.len() && (#[trigger] s[i]).0 == key
}

/// The value mapped to this key.
pub open spec fn value_at<K, V>(s: Seq<(K, V)>, key: K) -> V {
    let i = choose|i: int| 0 <= i < s.len() && (#[trigger] s[i]).0 == key;
    s[i].1
}

pub proof fn lemma_value_at_index<K, V>(s: Seq<(K, V)>, i: int)
    requires
        distinct_keys(s),
        0 <= i < s.len(),
    ensures
        contains_key(s, s[i].0),
        value_at(s, s[i].0) == s[i].1,
{
    let key = s[i].0;
    assert(contains_key(s, key));
    let j = choose|j: int| 0 <= j < s.len() && (#[trigger] s[j]).0 == key;
    assert(j == i);
}

/// Removing index `i` keeps keys distinct and removes exactly `s[i].0`.
pub proof fn lemma_remove_entry<K, V>(s: Seq<(K, V)>, i: int)
    requires
        distinct_keys(s),
        0 <= i < s.len(),
    ensures
        distinct_keys(s.remove(i)),
        !contains_key(s.remove(i), s[i].0),
        forall|other: K|
            other != s[i].0 ==> contains_key(s.remove(i), other) == contains_key(s, other),
        forall|other: K|
            other != s[i].0 && contains_key(s, other) ==> #[trigger] value_at(s.remove(i), other)
                == value_at(s, other),
{
    let t = s.remove(i);
    let key = s[i].0;
    assert forall|a: int, b: int| 0 <= a < b < t.len() implies (#[trigger] t[a]).0 != (
    #[trigger] t[b]).0 by {
        let a2 = if a < i { a } else { a + 1 };
        let b2 = if b < i { b } else { b + 1 };
        assert(t[a] == s[a2] && t[b] == s[b2]);
    }
    assert forall|j: int| 0 <= j < t.len() implies (#[trigger] t[j]).0 != key by {
        let j2 = if j < i { j } else { j + 1 };
        assert(t[j] == s[j2]);
        assert(j2 != i);
    }
    assert forall|other: K| other != key implies contains_key(t, other) == contains_key(
        s,
        other,
    ) by {
        if contains_key(t, other) {
            let j = choose|j: int| 0 <= j < t.len() && (#[trigger] t[j]).0 == other;
            let j2 = if j < i { j } else { j + 1 };
            assert(s[j2].0 == other);
        }
        if contains_key(s, other) {
            let k = choose|k: int| 0 <= k < s.len() && (#[trigger] s[k]).0 == other;
            assert(k != i);
            let k2 = if k < i { k } else { k - 1 };
            assert(t[k2] == s[k]);
        }
    }
    assert forall|other: K| other != key && contains_key(s, other) implies #[trigger] value_at(
        t,
        other,
    ) == value_at(s, other) by {
        let j = choose|j: int| 0 <= j < t.len() && (#[trigger] t[j]).0 == other;
        let j2 = if j < i { j } else { j + 1 };
        assert(t[j] == s[j2]);
        lemma_value_at_index(t, j);
        lemma_value_at_index(s, j2);
    }
}

/// Pushing a fresh key keeps keys distinct and adds exactly that key.
pub proof fn lemma_push_entry<K, V>(s: Seq<(K, V)>, key: K, value: V)
    requires
        distinct_keys(s),
        !contains_key(s, key),
    ensures
        distinct_keys(s.push((key, value))),
        contains_key(s.push((key, value)), key),
        value_at(s.push((key, value)), key) == value,
        forall|other: K|
            other != key ==> contains_key(s.push((key, value)), other) == contains_key(s, other),
        forall|other: K|
            other != key && contains_key(s, other) ==> #[trigger] value_at(
                s.push((key, value)),
                other,
            ) == value_at(s, other),
{
    let t = s.push((key, value));
    assert forall|a: int, b: int| 0 <= a < b < t.len() implies (#[trigger] t[a]).0 != (
    #[trigger] t[b]).0 by {
        if b == t.len() - 1 {
            assert(t[a] == s[a]);
            assert(s[a].0 != key) by {
                if s[a].0 == key {
                    assert(contains_key(s, key));
                }
            }
        } else {
            assert(t[a] == s[a] && t[b] == s[b]);
        }
    }
    assert(t[t.len() - 1].0 == key);
    assert(contains_key(t, key));
    lemma_value_at_index(t, t.len() - 1);
    assert forall|other: K| other != key implies contains_key(t, other) == contains_key(
        s,
        other,
    ) by {
        if contains_key(t, other) {
            let j = choose|j: int| 0 <= j < t.len() && (#[trigger] t[j]).0 == other;
            assert(j < t.len() - 1);
            assert(s[j].0 == other);
        }
        if contains_key(s, other) {
            let k = choose|k: int| 0 <= k < s.len() && (#[trigger] s[k]).0 == other;
            assert(t[k].0 == other);
        }
    }
    assert forall|other: K| other != key && contains_key(s, other) implies #[trigger] value_at(
        t,
        other,
    ) == value_at(s, other) by {
        let j = choose|j: int| 0 <= j < t.len() && (#[trigger] t[j]).0 == other;
        assert(j < t.len() - 1);
        assert(t[j] == s[j]);
        lemma_value_at_index(t, j);
        lemma_value_at_index(s, j);
    }
}

/// Updating index `i` in place keeps keys distinct and changes exactly that
/// key's value.
pub proof fn lemma_update_entry<K, V>(s: Seq<(K, V)>, i: int, value: V)
    requires
        distinct_keys(s),
        0 <= i < s.len(),
    ensures
        distinct_keys(s.update(i, (s[i].0, value))),
        contains_key(s.update(i, (s[i].0, value)), s[i].0),
        value_at(s.update(i, (s[i].0, value)), s[i].0) == value,
        forall|other: K|
            other != s[i].0 ==> contains_key(s.update(i, (s[i].0, value)), other) == contains_key(
                s,
                other,
            ),
        forall|other: K|
            other != s[i].0 && contains_key(s, other) ==> #[trigger] value_at(
                s.update(i, (s[i].0, value)),
                other,
            ) == value_at(s, other),
{
    let t = s.update(i, (s[i].0, value));
    assert forall|a: int, b: int| 0 <= a < b < t.len() implies (#[trigger] t[a]).0 != (
    #[trigger] t[b]).0 by {
        assert(t[a].0 == s[a].0 && t[b].0 == s[b].0);
    }
    assert(t[i].0 == s[i].0);
    assert(contains_key(t, s[i].0));
    lemma_value_at_index(t, i);
    assert forall|other: K| other != s[i].0 implies contains_key(t, other) == contains_key(
        s,
        other,
    ) by {
        if contains_key(t, other) {
            let j = choose|j: int| 0 <= j < t.len() && (#[trigger] t[j]).0 == other;
            assert(s[j].0 == other);
        }
        if contains_key(s, other) {
            let k = choose|k: int| 0 <= k < s.len() && (#[trigger] s[k]).0 == other;
            assert(t[k].0 == other);
        }
    }
    assert forall|other: K| other != s[i].0 && contains_key(s, other) implies #[trigger] value_at(
        t,
        other,
    ) == value_at(s, other) by {
        let j = choose|j: int| 0 <= j < t.len() && (#[trigger] t[j]).0 == other;
        assert(t[j].1 == s[j].1);
        lemma_value_at_index(t, j);
        lemma_value_at_index(s, j);
    }
}

} // verus!
