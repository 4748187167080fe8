//! Tables keyed by text, held as sequences of entries with distinct keys.

use vstd::prelude::*;

verus! {

/// No key occurs twice.
pub open spec fn keys_distinct<V>(t: Seq<(Seq<char>, V)>) -> bool {
    forall|i: int, j: int| 0 <= i < j < t.len() ==> t[i].0 != t[j].0
}

/// Whether the table has an entry for `key`.
pub open spec fn has_key<V>(t: Seq<(Seq<char>, V)>, key: Seq<char>) -> bool {
    exists|i: int| 0 <= i < t.len() && t[i].0 == key
}

/// The index of an entry for `key`; meaningful when there is one.
pub open spec fn key_index<V>(t: Seq<(Seq<char>, V)>, key: Seq<char>) -> int {
    choose|i: int| 0 <= i < t.len() && t[i].0 == key
}

/// The value stored for `key`, if any.
pub open spec fn value_of<V>(t: Seq<(Seq<char>, V)>, key: Seq<char>) -> Option<V> {
    if has_key(t, key) {
        Some(t[key_index(t, key)].1)
    } else {
        None
    }
}

/// The table with `value` stored for `key`: in place of the value of an
/// entry that is already there, else as a new last entry.
pub open spec fn stored<V>(t: Seq<(Seq<char>, V)>, key: Seq<char>, value: V) -> Seq<(Seq<char>, V)> {
    if has_key(t, key) {
        t.update(key_index(t, key), (key, value))
    } else {
        t.push((key, value))
    }
}

/// With distinct keys, any index that holds `key` is the index of `key`.
pub proof fn lemma_key_index<V>(t: Seq<(Seq<char>, V)>, key: Seq<char>, i: int)
    requires
        keys_distinct(t),
        0 <= i < t.len(),
        t[i].0 == key,
    ensures
        has_key(t, key),
        key_index(t, key) == i,
        value_of(t, key) == Some(t[i].1),
{
    let j = key_index(t, key);
    if j < i {
        assert(t[j].0 != t[i].0);
    } else if i < j {
        assert(t[i].0 != t[j].0);
    }
}

/// Storing a value for a key keeps the keys distinct, is found again under
/// that key, and leaves every other key as it was.
pub proof fn lemma_store_lookup<V>(t: Seq<(Seq<char>, V)>, key: Seq<char>, count: V)
    requires
        keys_distinct(t),
    ensures
        keys_distinct(stored(t, key, count)),
        value_of(stored(t, key, count), key) == Some(count),
        forall|other: Seq<char>|
            other != key ==> value_of(stored(t, key, count), other) == value_of(t, other),
        stored(t, key, count).len() >= t.len(),
{
    let stored = stored(t, key, count);
    let at = if has_key(t, key) {
        key_index(t, key)
    } else {
        t.len() as int
    };
    assert(stored[at] == (key, count));
    assert forall|i: int, j: int| 0 <= i < j < stored.len() implies stored[i].0 != stored[j].0 by {
        if has_key(t, key) {
            assert(stored[i].0 == t[i].0 && stored[j].0 == t[j].0);
        } else if j == t.len() {
            assert(stored[i].0 == t[i].0);
        }
    }
    lemma_key_index(stored, key, at);
    assert forall|other: Seq<char>| other != key implies value_of(stored, other) == value_of(
        t,
        other,
    ) by {
        if has_key(t, other) {
            let i = key_index(t, other);
            assert(stored[i] == t[i]);
            lemma_key_index(stored, other, i);
        } else if has_key(stored, other) {
            let i = key_index(stored, other);
            assert(i < t.len() && t[i].0 == other);
        }
    }
}


/// The table after the first `n` entries were entered in order, a later
/// entry taking the place of an earlier one with the same key.
pub open spec fn entered_upto<V>(entries: Seq<(Seq<char>, V)>, n: int) -> Seq<(Seq<char>, V)>
    decreases n,
{
    if n <= 0 {
        Seq::empty()
    } else {
        stored(entered_upto(entries, n - 1), entries[n - 1].0, entries[n - 1].1)
    }
}

/// No key has two entries in the table, and every entry of the table is
/// one of the entries that were entered, so that every key of the table
/// is the key of such an entry.
pub proof fn lemma_entered<V>(entries: Seq<(Seq<char>, V)>, n: int)
    requires
        0 <= n <= entries.len(),
    ensures
        keys_distinct(entered_upto(entries, n)),
        entered_upto(entries, n).len() <= n,
        forall|j: int|
            0 <= j < entered_upto(entries, n).len() ==> exists|i: int|
                0 <= i < n && entries[i] == #[trigger] entered_upto(entries, n)[j],
        forall|key: Seq<char>|
            has_key(entered_upto(entries, n), key) ==> exists|i: int|
                0 <= i < n && #[trigger] entries[i].0 == key,
    decreases n,
{
    if n > 0 {
        lemma_entered(entries, n - 1);
        let before = entered_upto(entries, n - 1);
        let after = entered_upto(entries, n);
        let last = entries[n - 1];
        lemma_store_lookup(before, last.0, last.1);
        assert forall|j: int| 0 <= j < after.len() implies exists|i: int|
            0 <= i < n && entries[i] == #[trigger] after[j] by {
            if after[j] == last {
                assert(entries[n - 1] == after[j]);
            } else {
                assert(j < before.len() && before[j] == after[j]);
                let i = choose|i: int| 0 <= i < n - 1 && entries[i] == before[j];
                assert(entries[i] == after[j]);
            }
        }
        assert forall|key: Seq<char>| has_key(after, key) implies exists|i: int|
            0 <= i < n && #[trigger] entries[i].0 == key by {
            let j = choose|j: int| 0 <= j < after.len() && after[j].0 == key;
            let i = choose|i: int| 0 <= i < n && entries[i] == after[j];
            assert(entries[i].0 == key);
        }
        if has_key(before, last.0) {
            assert(after.len() == before.len());
        }
    }
}

/// Entries with distinct keys enter the table as they are, in their order.
pub proof fn lemma_entered_distinct<V>(entries: Seq<(Seq<char>, V)>, n: int)
    requires
        0 <= n <= entries.len(),
        keys_distinct(entries),
    ensures
        entered_upto(entries, n) == entries.take(n),
    decreases n,
{
    if n == 0 {
        assert(entered_upto(entries, n) =~= entries.take(n));
    } else {
        lemma_entered_distinct(entries, n - 1);
        let before = entries.take(n - 1);
        let last = entries[n - 1];
        assert(!has_key(before, last.0)) by {
            if has_key(before, last.0) {
                let i = key_index(before, last.0);
                assert(entries[i].0 != entries[n - 1].0);
            }
        }
        assert(before.push((last.0, last.1)) =~= entries.take(n));
    }
}

/// The table holds, for the key of an entry that no later entry repeats,
/// the value of that entry.
pub proof fn lemma_last_entry_stays<V>(entries: Seq<(Seq<char>, V)>, n: int, i: int)
    requires
        0 <= i < n <= entries.len(),
        forall|j: int| i < j < n ==> (#[trigger] entries[j]).0 != entries[i].0,
    ensures
        value_of(entered_upto(entries, n), entries[i].0) == Some(entries[i].1),
    decreases n,
{
    let before = entered_upto(entries, n - 1);
    let last = entries[n - 1];
    lemma_entered(entries, n - 1);
    lemma_store_lookup(before, last.0, last.1);
    if i < n - 1 {
        lemma_last_entry_stays(entries, n - 1, i);
        assert(entries[n - 1].0 != entries[i].0);
    }
}

} // verus!
