//! Shared key-addressed storage for the registry and the ledger: entries in
//! insertion order, looked up by an opaque key.

use vstd::prelude::*;

verus! {

/// One stored record together with the key it was created at.
#[derive(Clone, Copy, Debug)]
pub struct Entry<V> {
    pub key: u64,
    pub value: V,
}

/// The record stored at `key`: the first entry carrying that key, or
/// `None` when no entry does.
pub open spec fn lookup<V>(s: Seq<Entry<V>>, key: u64) -> Option<V>
    decreases s.len(),
{
    if s.len() == 0 {
        None
    } else if s[0].key == key {
        Some(s[0].value)
    } else {
        lookup(s.drop_first(), key)
    }
}

/// Entries whose first `i` keys all differ from `key` resolve `key` the
/// same way their remainder does.
proof fn lemma_lookup_skip<V>(s: Seq<Entry<V>>, key: u64, i: int)
    requires
        0 <= i <= s.len(),
        forall|j: int| 0 <= j < i ==> s[j].key != key,
    ensures
        lookup(s, key) == lookup(s.skip(i), key),
    decreases i,
{
    if i == 0 {
        assert(s.skip(0) =~= s);
    } else {
        assert(s.len() > 0);
        assert(s[0].key != key);
        assert(s.skip(i) =~= s.drop_first().skip(i - 1));
        lemma_lookup_skip(s.drop_first(), key, i - 1);
    }
}

/// Appending an entry leaves every already-resolved key as it was, and
/// resolves the new entry's key to it where it was unresolved.
pub proof fn lemma_lookup_push<V>(s: Seq<Entry<V>>, e: Entry<V>, key: u64)
    ensures
        lookup(s.push(e), key) == (if lookup(s, key) is Some {
            lookup(s, key)
        } else if e.key == key {
            Some(e.value)
        } else {
            None::<V>
        }),
    decreases s.len(),
{
    if s.len() == 0 {
        assert(s.push(e)[0] == e);
        assert(s.push(e).drop_first() =~= Seq::<Entry<V>>::empty());
        assert(lookup(s.push(e).drop_first(), key) is None);
        assert(lookup(s, key) is None);
        if e.key == key {
            assert(lookup(s.push(e), key) == Some(e.value));
        } else {
            assert(lookup(s.push(e), key) is None);
        }
    } else {
        assert(s.push(e)[0] == s[0]);
        assert(s.push(e).drop_first() =~= s.drop_first().push(e));
        lemma_lookup_push(s.drop_first(), e, key);
        if s[0].key == key {
            assert(lookup(s.push(e), key) == Some(s[0].value));
            assert(lookup(s, key) == Some(s[0].value));
        } else {
            assert(lookup(s.push(e), key) == lookup(s.drop_first().push(e), key));
            assert(lookup(s, key) == lookup(s.drop_first(), key));
        }
    }
}

/// Replacing the first entry that carries some key with another entry of
/// that same key rebinds that key and no other.
pub proof fn lemma_lookup_update<V>(s: Seq<Entry<V>>, i: int, e: Entry<V>, key: u64)
    requires
        0 <= i < s.len(),
        e.key == s[i].key,
        forall|j: int| 0 <= j < i ==> s[j].key != s[i].key,
    ensures
        lookup(s.update(i, e), key) == (if key == e.key {
            Some(e.value)
        } else {
            lookup(s, key)
        }),
    decreases i,
{
    if i == 0 {
        assert(s.update(0, e)[0] == e);
        if key != e.key {
            assert(s.update(0, e).drop_first() =~= s.drop_first());
        }
    } else {
        assert(s.update(i, e)[0] == s[0]);
        assert(s[0].key != s[i].key);
        assert(s.update(i, e).drop_first() =~= s.drop_first().update(i - 1, e));
        assert(s.drop_first()[i - 1] == s[i]);
        lemma_lookup_update(s.drop_first(), i - 1, e, key);
    }
}

/// Find the index of the first entry stored at `key`, or report that the
/// key is unresolved.
pub fn find_entry<V>(entries: &Vec<Entry<V>>, key: u64) -> (r: Option<usize>)
    ensures
        match r {
            Some(i) => i < entries@.len() && entries@[i as int].key == key && lookup(entries@, key)
                == Some(entries@[i as int].value) && (forall|j: int|
                0 <= j < i ==> entries@[j].key != key),
            None => lookup(entries@, key) is None,
        },
{
    let n = entries.len();
    let mut i: usize = 0;
    while i < n
        invariant
            i <= n,
            n == entries@.len(),
            forall|j: int| 0 <= j < i ==> entries@[j].key != key,
        decreases n - i,
    {
        if entries[i].key == key {
            proof {
                lemma_lookup_skip(entries@, key, i as int);
                assert(entries@.skip(i as int)[0] == entries@[i as int]);
            }
            return Some(i);
        }
        i = i + 1;
    }
    proof {
        lemma_lookup_skip(entries@, key, n as int);
        assert(entries@.skip(n as int) =~= Seq::<Entry<V>>::empty());
    }
    None
}

} // verus!
