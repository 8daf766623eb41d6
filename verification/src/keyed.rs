//! Sequences of records keyed by a name, read as maps.
//!
//! Both the index store (entries keyed by filename) and the directory model
//! (files keyed by name) are association sequences with unique keys. This
//! module holds their shared mathematical model: the map a sequence denotes,
//! and how pushing, replacing and removing a record act on that map.

use vstd::prelude::*;

verus! {

/// No two records of the sequence share a key.
pub open spec fn keys_unique<T>(s: Seq<T>, key: spec_fn(T) -> Seq<char>) -> bool {
    forall|i: int, j: int| 0 <= i < j < s.len() ==> key(#[trigger] s[i]) != key(#[trigger] s[j])
}

/// The map the sequence denotes: each key to its record.
pub open spec fn key_map<T>(s: Seq<T>, key: spec_fn(T) -> Seq<char>) -> Map<Seq<char>, T>
    decreases s.len(),
{
    if s.len() == 0 {
        Map::empty()
    } else {
        key_map(s.drop_last(), key).insert(key(s.last()), s.last())
    }
}

/// Replace the first record carrying the key of `v` by `v`, or append `v`
/// when no record carries it.
pub open spec fn upsert_seq<T>(s: Seq<T>, key: spec_fn(T) -> Seq<char>, v: T) -> Seq<T>
    decreases s.len(),
{
    if s.len() == 0 {
        seq![v]
    } else if key(s[0]) == key(v) {
        seq![v] + s.subrange(1, s.len() as int)
    } else {
        seq![s[0]] + upsert_seq(s.subrange(1, s.len() as int), key, v)
    }
}

/// Drop every record carrying the given key.
pub open spec fn remove_seq<T>(s: Seq<T>, key: spec_fn(T) -> Seq<char>, n: Seq<char>) -> Seq<T>
    decreases s.len(),
{
    if s.len() == 0 {
        s
    } else if key(s[0]) == n {
        remove_seq(s.subrange(1, s.len() as int), key, n)
    } else {
        seq![s[0]] + remove_seq(s.subrange(1, s.len() as int), key, n)
    }
}

/// A key is in the map exactly when some record of the sequence carries it.
pub proof fn lemma_key_map_dom<T>(s: Seq<T>, key: spec_fn(T) -> Seq<char>, n: Seq<char>)
    ensures
        key_map(s, key).dom().contains(n) <==> exists|i: int|
            0 <= i < s.len() && key(#[trigger] s[i]) == n,
    decreases s.len(),
{
    if s.len() > 0 {
        lemma_key_map_dom(s.drop_last(), key, n);
        if key(s.last()) == n {
            assert(key(s[s.len() - 1]) == n);
        } else {
            if exists|i: int| 0 <= i < s.len() && key(#[trigger] s[i]) == n {
                let i = choose|i: int| 0 <= i < s.len() && key(#[trigger] s[i]) == n;
                assert(i < s.len() - 1);
                assert(key(s.drop_last()[i]) == n);
            }
        }
    }
}

/// With unique keys, each record is exactly what the map holds at its key.
pub proof fn lemma_key_map_get<T>(s: Seq<T>, key: spec_fn(T) -> Seq<char>, i: int)
    requires
        keys_unique(s, key),
        0 <= i < s.len(),
    ensures
        key_map(s, key).dom().contains(key(s[i])),
        key_map(s, key)[key(s[i])] == s[i],
    decreases s.len(),
{
    if i == s.len() - 1 {
    } else {
        lemma_key_map_get(s.drop_last(), key, i);
        assert(s.drop_last()[i] == s[i]);
        assert(key(s[i]) != key(s.last()));
    }
}

/// Appending a record inserts it into the map.
pub proof fn lemma_key_map_push<T>(s: Seq<T>, key: spec_fn(T) -> Seq<char>, v: T)
    ensures
        key_map(s.push(v), key) == key_map(s, key).insert(key(v), v),
{
    assert(s.push(v).drop_last() =~= s);
    assert(s.push(v).last() == v);
}

/// When no record carries the key of `v`, the upsert is an append.
pub proof fn lemma_upsert_seq_push<T>(s: Seq<T>, key: spec_fn(T) -> Seq<char>, v: T)
    requires
        forall|i: int| 0 <= i < s.len() ==> key(#[trigger] s[i]) != key(v),
    ensures
        upsert_seq(s, key, v) == s.push(v),
    decreases s.len(),
{
    if s.len() == 0 {
        assert(upsert_seq(s, key, v) =~= s.push(v));
    } else {
        let rest = s.subrange(1, s.len() as int);
        lemma_upsert_seq_push(rest, key, v);
        assert(upsert_seq(s, key, v) =~= s.push(v));
    }
}

/// When record `i` is the first to carry the key of `v`, the upsert is a
/// replacement in place.
pub proof fn lemma_upsert_seq_update<T>(s: Seq<T>, key: spec_fn(T) -> Seq<char>, v: T, i: int)
    requires
        0 <= i < s.len(),
        key(s[i]) == key(v),
        forall|j: int| 0 <= j < i ==> key(#[trigger] s[j]) != key(v),
    ensures
        upsert_seq(s, key, v) == s.update(i, v),
    decreases s.len(),
{
    if i == 0 {
        assert(upsert_seq(s, key, v) =~= s.update(0, v));
    } else {
        let rest = s.subrange(1, s.len() as int);
        lemma_upsert_seq_update(rest, key, v, i - 1);
        assert(s.update(i, v).subrange(1, s.len() as int) =~= rest.update(i - 1, v));
        assert(upsert_seq(s, key, v) =~= s.update(i, v));
    }
}

/// The upsert inserts the record into the map and preserves key uniqueness.
pub proof fn lemma_upsert_seq_map<T>(s: Seq<T>, key: spec_fn(T) -> Seq<char>, v: T)
    requires
        keys_unique(s, key),
    ensures
        keys_unique(upsert_seq(s, key, v), key),
        key_map(upsert_seq(s, key, v), key) == key_map(s, key).insert(key(v), v),
{
    lemma_key_map_dom(s, key, key(v));
    if exists|i: int| 0 <= i < s.len() && key(#[trigger] s[i]) == key(v) {
        let i = first_with_key(s, key, key(v));
        lemma_first_with_key(s, key, key(v));
        lemma_upsert_seq_update(s, key, v, i);
        lemma_seq_update_map(s, key, i, v);
    } else {
        assert(forall|i: int| 0 <= i < s.len() ==> key(#[trigger] s[i]) != key(v));
        lemma_upsert_seq_push(s, key, v);
        lemma_key_map_push(s, key, v);
        assert(keys_unique(s.push(v), key));
    }
}

/// Every record of an upsert result is the inserted one or one of the old.
pub proof fn lemma_upsert_seq_elements<T>(s: Seq<T>, key: spec_fn(T) -> Seq<char>, v: T)
    ensures
        forall|j: int|
            0 <= j < upsert_seq(s, key, v).len() ==> #[trigger] upsert_seq(s, key, v)[j] == v
                || exists|i: int| 0 <= i < s.len() && upsert_seq(s, key, v)[j] == s[i],
    decreases s.len(),
{
    let t = upsert_seq(s, key, v);
    if s.len() == 0 {
    } else if key(s[0]) == key(v) {
        assert forall|j: int| 0 <= j < t.len() implies #[trigger] t[j] == v || exists|i: int|
            0 <= i < s.len() && t[j] == s[i] by {
            if j > 0 {
                assert(t[j] == s[j]);
            }
        }
    } else {
        let rest = s.subrange(1, s.len() as int);
        lemma_upsert_seq_elements(rest, key, v);
        assert forall|j: int| 0 <= j < t.len() implies #[trigger] t[j] == v || exists|i: int|
            0 <= i < s.len() && t[j] == s[i] by {
            if j > 0 {
                let u = upsert_seq(rest, key, v);
                assert(t[j] == u[j - 1]);
                if u[j - 1] != v {
                    let i = choose|i: int| 0 <= i < rest.len() && u[j - 1] == rest[i];
                    assert(t[j] == s[i + 1]);
                }
            }
        }
    }
}

/// The least position whose record carries the key.
pub open spec fn first_with_key<T>(s: Seq<T>, key: spec_fn(T) -> Seq<char>, n: Seq<char>) -> int
    decreases s.len(),
{
    if s.len() == 0 {
        0
    } else if key(s[0]) == n {
        0
    } else {
        1 + first_with_key(s.subrange(1, s.len() as int), key, n)
    }
}

/// When some record carries the key, `first_with_key` names the least one.
pub proof fn lemma_first_with_key<T>(s: Seq<T>, key: spec_fn(T) -> Seq<char>, n: Seq<char>)
    requires
        exists|i: int| 0 <= i < s.len() && key(#[trigger] s[i]) == n,
    ensures
        0 <= first_with_key(s, key, n) < s.len(),
        key(s[first_with_key(s, key, n)]) == n,
        forall|j: int| 0 <= j < first_with_key(s, key, n) ==> key(#[trigger] s[j]) != n,
    decreases s.len(),
{
    if key(s[0]) == n {
    } else {
        let rest = s.subrange(1, s.len() as int);
        let i = choose|i: int| 0 <= i < s.len() && key(#[trigger] s[i]) == n;
        assert(key(rest[i - 1]) == n);
        lemma_first_with_key(rest, key, n);
        assert(forall|j: int|
            1 <= j < s.len() ==> key(#[trigger] s[j]) == key(rest[j - 1]));
    }
}

/// Replacing a record in place, keeping its key, inserts it into the map.
pub proof fn lemma_seq_update_map<T>(s: Seq<T>, key: spec_fn(T) -> Seq<char>, i: int, v: T)
    requires
        keys_unique(s, key),
        0 <= i < s.len(),
        key(s[i]) == key(v),
    ensures
        keys_unique(s.update(i, v), key),
        key_map(s.update(i, v), key) == key_map(s, key).insert(key(v), v),
    decreases s.len(),
{
    let t = s.update(i, v);
    assert(keys_unique(t, key));
    if i == s.len() - 1 {
        assert(t.drop_last() =~= s.drop_last());
        assert(t.last() == v);
        assert(key_map(t, key) =~= key_map(s, key).insert(key(v), v));
    } else {
        assert(t.drop_last() =~= s.drop_last().update(i, v));
        lemma_seq_update_map(s.drop_last(), key, i, v);
        assert(t.last() == s.last());
        assert(key(s[i]) != key(s.last()));
        assert(key_map(t, key) =~= key_map(s, key).insert(key(v), v));
    }
}

/// Dropping a key removes it from the map and preserves uniqueness; records
/// under other keys stay.
pub proof fn lemma_remove_seq_map<T>(s: Seq<T>, key: spec_fn(T) -> Seq<char>, n: Seq<char>)
    requires
        keys_unique(s, key),
    ensures
        keys_unique(remove_seq(s, key, n), key),
        key_map(remove_seq(s, key, n), key) == key_map(s, key).remove(n),
    decreases s.len(),
{
    lemma_key_map_dom(s, key, n);
    if exists|i: int| 0 <= i < s.len() && key(#[trigger] s[i]) == n {
        let i = first_with_key(s, key, n);
        lemma_first_with_key(s, key, n);
        lemma_remove_at_map(s, key, i);
        assert(forall|j: int|
            0 <= j < s.remove(i).len() && j < i ==> s.remove(i)[j] == s[j]);
        assert(forall|j: int|
            i <= j < s.remove(i).len() ==> s.remove(i)[j] == s[j + 1]);
        assert(forall|j: int| 0 <= j < s.remove(i).len() ==> key(#[trigger] s.remove(i)[j]) != n);
        lemma_remove_seq_absent(s.remove(i), key, n);
        lemma_remove_seq_at(s, key, n, i);
    } else {
        assert(forall|i: int| 0 <= i < s.len() ==> key(#[trigger] s[i]) != n);
        lemma_remove_seq_absent(s, key, n);
        lemma_key_map_absent(s, key, n);
        assert(key_map(s, key).remove(n) =~= key_map(s, key));
    }
}

/// Removing an absent key leaves the sequence as it is.
pub proof fn lemma_remove_seq_absent<T>(s: Seq<T>, key: spec_fn(T) -> Seq<char>, n: Seq<char>)
    requires
        forall|i: int| 0 <= i < s.len() ==> key(#[trigger] s[i]) != n,
    ensures
        remove_seq(s, key, n) == s,
    decreases s.len(),
{
    if s.len() > 0 {
        let rest = s.subrange(1, s.len() as int);
        lemma_remove_seq_absent(rest, key, n);
        assert(remove_seq(s, key, n) =~= s);
    }
}

/// A key that no record carries is not in the map.
pub proof fn lemma_key_map_absent<T>(s: Seq<T>, key: spec_fn(T) -> Seq<char>, n: Seq<char>)
    requires
        forall|i: int| 0 <= i < s.len() ==> key(#[trigger] s[i]) != n,
    ensures
        !key_map(s, key).dom().contains(n),
{
    lemma_key_map_dom(s, key, n);
}

/// With unique keys, dropping the one record that carries the key is the
/// pointwise removal at its position.
pub proof fn lemma_remove_seq_at<T>(s: Seq<T>, key: spec_fn(T) -> Seq<char>, n: Seq<char>, i: int)
    requires
        keys_unique(s, key),
        0 <= i < s.len(),
        key(s[i]) == n,
    ensures
        remove_seq(s, key, n) == s.remove(i),
    decreases s.len(),
{
    if i == 0 {
        let rest = s.subrange(1, s.len() as int);
        assert(forall|j: int| 0 <= j < rest.len() ==> key(#[trigger] rest[j]) != n);
        lemma_remove_seq_absent(rest, key, n);
        assert(s.remove(0) =~= rest);
    } else {
        let rest = s.subrange(1, s.len() as int);
        lemma_remove_seq_at(rest, key, n, i - 1);
        assert(s.remove(i).subrange(1, s.remove(i).len() as int) =~= rest.remove(i - 1));
        assert(remove_seq(s, key, n) =~= s.remove(i));
    }
}

/// Dropping a record at a position removes its key from the map.
pub proof fn lemma_remove_at_map<T>(s: Seq<T>, key: spec_fn(T) -> Seq<char>, i: int)
    requires
        keys_unique(s, key),
        0 <= i < s.len(),
    ensures
        keys_unique(s.remove(i), key),
        key_map(s.remove(i), key) == key_map(s, key).remove(key(s[i])),
    decreases s.len(),
{
    let t = s.remove(i);
    assert(forall|j: int| 0 <= j < t.len() && j < i ==> t[j] == s[j]);
    assert(forall|j: int| i <= j < t.len() ==> t[j] == s[j + 1]);
    assert(keys_unique(t, key));
    if i == s.len() - 1 {
        assert(t =~= s.drop_last());
        lemma_key_map_absent_remove(s.drop_last(), key, key(s[i]));
    } else {
        assert(t.drop_last() =~= s.drop_last().remove(i));
        lemma_remove_at_map(s.drop_last(), key, i);
        assert(t.last() == s.last());
        assert(s.drop_last()[i] == s[i]);
        assert(key(s[i]) != key(s.last()));
        assert(key_map(t, key) =~= key_map(s, key).remove(key(s[i])));
    }
}

/// Removing a key that no record carries leaves the map as it is.
pub proof fn lemma_key_map_absent_remove<T>(s: Seq<T>, key: spec_fn(T) -> Seq<char>, n: Seq<char>)
    requires
        forall|i: int| 0 <= i < s.len() ==> key(#[trigger] s[i]) != n,
    ensures
        key_map(s, key).remove(n) == key_map(s, key),
{
    lemma_key_map_dom(s, key, n);
    assert(key_map(s, key).remove(n) =~= key_map(s, key));
}

} // verus!
