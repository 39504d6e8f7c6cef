//! Association-list maps.
//!
//! The caches and ledgers of the verifier are small in-memory maps.  They
//! are kept as vectors of key/value pairs and specified through the
//! first-match lookup and store below; a key occurring once shadows any
//! later occurrence, so the functional behaviour never depends on
//! duplicates.

use vstd::prelude::*;

verus! {

/// The value stored under `key`: the first matching entry wins.
pub open spec fn kv_lookup<K, V>(entries: Seq<(K, V)>, key: K) -> Option<V>
    decreases entries.len(),
{
    if entries.len() == 0 {
        None
    } else if entries[0].0 == key {
        Some(entries[0].1)
    } else {
        kv_lookup(entries.drop_first(), key)
    }
}

/// Store `value` under `key`: replace the first matching entry, or append a
/// new one.
pub open spec fn kv_store<K, V>(entries: Seq<(K, V)>, key: K, value: V) -> Seq<(K, V)>
    decreases entries.len(),
{
    if entries.len() == 0 {
        seq![(key, value)]
    } else if entries[0].0 == key {
        seq![(key, value)] + entries.drop_first()
    } else {
        seq![entries[0]] + kv_store(entries.drop_first(), key, value)
    }
}

/// A first match at index `i` is what lookup returns.
pub proof fn lemma_kv_lookup_at<K, V>(entries: Seq<(K, V)>, key: K, i: int)
    requires
        0 <= i < entries.len(),
        entries[i].0 == key,
        forall|j: int| 0 <= j < i ==> (#[trigger] entries[j]).0 != key,
    ensures
        kv_lookup(entries, key) == Some(entries[i].1),
    decreases i,
{
    if i > 0 {
        lemma_kv_lookup_at(entries.drop_first(), key, i - 1);
    }
}

/// With no matching entry, lookup finds nothing.
pub proof fn lemma_kv_lookup_none<K, V>(entries: Seq<(K, V)>, key: K)
    requires
        forall|j: int| 0 <= j < entries.len() ==> (#[trigger] entries[j]).0 != key,
    ensures
        kv_lookup(entries, key) == None::<V>,
    decreases entries.len(),
{
    if entries.len() > 0 {
        lemma_kv_lookup_none(entries.drop_first(), key);
    }
}

/// Updating the first match in place is what store means.
pub proof fn lemma_kv_store_at<K, V>(entries: Seq<(K, V)>, key: K, value: V, i: int)
    requires
        0 <= i < entries.len(),
        entries[i].0 == key,
        forall|j: int| 0 <= j < i ==> (#[trigger] entries[j]).0 != key,
    ensures
        kv_store(entries, key, value) == entries.update(i, (key, value)),
    decreases i,
{
    if i == 0 {
        assert(kv_store(entries, key, value) =~= entries.update(0, (key, value)));
    } else {
        lemma_kv_store_at(entries.drop_first(), key, value, i - 1);
        assert(entries.update(i, (key, value)).drop_first() =~= entries.drop_first().update(
            i - 1,
            (key, value),
        ));
        assert(kv_store(entries, key, value) =~= entries.update(i, (key, value)));
    }
}

/// With no matching entry, store appends.
pub proof fn lemma_kv_store_absent<K, V>(entries: Seq<(K, V)>, key: K, value: V)
    requires
        forall|j: int| 0 <= j < entries.len() ==> (#[trigger] entries[j]).0 != key,
    ensures
        kv_store(entries, key, value) == entries.push((key, value)),
    decreases entries.len(),
{
    if entries.len() == 0 {
        assert(kv_store(entries, key, value) =~= entries.push((key, value)));
    } else {
        lemma_kv_store_absent(entries.drop_first(), key, value);
        assert(entries.push((key, value)).drop_first() =~= entries.drop_first().push(
            (key, value),
        ));
        assert(kv_store(entries, key, value) =~= entries.push((key, value)));
    }
}

/// What lookup sees after a store: the stored value under the stored key,
/// and the old values everywhere else.
pub proof fn lemma_kv_lookup_store<K, V>(entries: Seq<(K, V)>, key: K, value: V, probe: K)
    ensures
        kv_lookup(kv_store(entries, key, value), probe) == (if probe == key {
            Some(value)
        } else {
            kv_lookup(entries, probe)
        }),
    decreases entries.len(),
{
    if entries.len() == 0 {
        let s = kv_store(entries, key, value);
        assert(s[0] == (key, value));
        assert(s.drop_first() =~= Seq::<(K, V)>::empty());
        assert(kv_lookup(Seq::<(K, V)>::empty(), probe) == None::<V>);
    } else if entries[0].0 == key {
        let s = kv_store(entries, key, value);
        assert(s[0] == (key, value));
        assert(s.drop_first() =~= entries.drop_first());
    } else {
        let s = kv_store(entries, key, value);
        assert(s[0] == entries[0]);
        assert(s.drop_first() =~= kv_store(entries.drop_first(), key, value));
        lemma_kv_lookup_store(entries.drop_first(), key, value, probe);
    }
}

/// Appending a fresh key leaves every other lookup unchanged.
pub proof fn lemma_kv_lookup_push<K, V>(entries: Seq<(K, V)>, key: K, value: V, probe: K)
    requires
        kv_lookup(entries, key) == None::<V>,
    ensures
        kv_lookup(entries.push((key, value)), probe) == (if probe == key {
            Some(value)
        } else {
            kv_lookup(entries, probe)
        }),
    decreases entries.len(),
{
    if entries.len() == 0 {
        assert(entries.push((key, value))[0] == (key, value));
        assert(entries.push((key, value)).drop_first() =~= Seq::<(K, V)>::empty());
        assert(kv_lookup(Seq::<(K, V)>::empty(), probe) == None::<V>);
    } else {
        assert(entries.push((key, value))[0] == entries[0]);
        assert(entries.push((key, value)).drop_first() =~= entries.drop_first().push(
            (key, value),
        ));
        lemma_kv_lookup_push(entries.drop_first(), key, value, probe);
    }
}

/// Byte-string equality, decided element by element.
pub fn bytes_eq(a: &Vec<u8>, b: &Vec<u8>) -> (r: bool)
    ensures
        r == (a@ == b@),
{
    if a.len() != b.len() {
        return false;
    }
    let mut i: usize = 0;
    while i < a.len()
        invariant
            0 <= i <= a@.len(),
            a@.len() == b@.len(),
            forall|j: int| 0 <= j < i ==> a@[j] == b@[j],
        decreases a@.len() - i,
    {
        if a[i] != b[i] {
            return false;
        }
        i += 1;
    }
    proof {
        assert(a@ =~= b@);
    }
    true
}

/// An owned copy of a byte string.
pub fn copy_bytes(v: &Vec<u8>) -> (r: Vec<u8>)
    ensures
        r@ == v@,
{
    let mut r: Vec<u8> = Vec::new();
    let mut i: usize = 0;
    while i < v.len()
        invariant
            0 <= i <= v@.len(),
            r@ =~= v@.subrange(0, i as int),
        decreases v@.len() - i,
    {
        r.push(v[i]);
        i += 1;
    }
    proof {
        assert(v@.subrange(0, v@.len() as int) =~= v@);
    }
    r
}

} // verus!
