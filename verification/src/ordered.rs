//! Reading an ordered map of log entries: its keys in ascending order, and
//! single lookups, insertions and removals by key.

use crate::entry::Entry;
use std::collections::BTreeMap;
use vstd::prelude::*;
use vstd::std_specs::btree::*;
use vstd::std_specs::cmp::OrdSpec;
use vstd::std_specs::iter::IteratorSpec;

verus! {

/// Each element is smaller than every later one.
pub open spec fn ascending(s: Seq<u64>) -> bool {
    forall|i: int, j: int| 0 <= i < j < s.len() ==> s[i] < s[j]
}

/// The keys of `m`, smallest first.
pub fn sorted_keys(m: &BTreeMap<u64, Entry>) -> (out: Vec<u64>)
    ensures
        ascending(out@),
        forall|k: u64| out@.contains(k) <==> m@.contains_key(k),
        m@.dom().finite(),
{
    broadcast use vstd::laws_cmp::group_laws_cmp;
    broadcast use group_btree_axioms;

    let mut out: Vec<u64> = Vec::new();
    let ghost all = spec_btree_map_iter(m).remaining();
    let ghost keys = all.map_values(|kv: (&u64, &Entry)| *kv.0);
    let iter = m.iter();
    proof {
        assert(key_obeys_cmp_spec::<u64>());
        assert(iter == spec_btree_map_iter(m));
        assert(keys =~= iter.remaining().map_values(|kv: (&u64, &Entry)| *kv.0));
        assert(increasing_seq(keys));
        axiom_increasing_seq_meaning(keys);
        assert forall|i: int, j: int| 0 <= i < j < keys.len() implies keys[i] < keys[j] by {
            assert(keys[i].cmp_spec(&keys[j]) is Less);
        }
        axiom_spec_btree_map_iter(m);
        assert forall|k: u64| keys.contains(k) <==> m@.contains_key(k) by {
            if keys.contains(k) {
                let i = choose|i: int| 0 <= i < keys.len() && keys[i] == k;
                assert(m@.contains_key(*all[i].0));
            }
            if m@.contains_key(k) {
                assert(all.contains((&k, &m@[k])));
                let i = choose|i: int| 0 <= i < all.len() && all[i] == (&k, &m@[k]);
                assert(keys[i] == k);
            }
        }
    }
    for kv in it: iter
        invariant
            it.seq() == all,
            keys == all.map_values(|kv: (&u64, &Entry)| *kv.0),
            out@ == keys.take(it.index()),
    {
        out.push(*kv.0);
        proof {
            assert(keys.take(it.index() + 1) == keys.take(it.index()).push(*kv.0));
        }
    }
    proof {
        assert(keys.take(keys.len() - 0) == keys);
    }
    out
}

/// The entry stored under `key`, if there is one.
pub fn entry_at(m: &BTreeMap<u64, Entry>, key: u64) -> (r: Option<&Entry>)
    ensures
        match r {
            Some(e) => m@.contains_key(key) && m@[key] == *e,
            None => !m@.contains_key(key),
        },
{
    broadcast use vstd::laws_cmp::group_laws_cmp;
    broadcast use group_btree_axioms;

    m.get(&key)
}

/// Stores `entry` under `key`, in place of what was there.
pub fn put_entry(m: &mut BTreeMap<u64, Entry>, key: u64, entry: Entry)
    ensures
        final(m)@ == old(m)@.insert(key, entry),
{
    broadcast use vstd::laws_cmp::group_laws_cmp;
    broadcast use group_btree_axioms;

    m.insert(key, entry);
}

/// Removes what is stored under `key`, if anything.
pub fn drop_entry(m: &mut BTreeMap<u64, Entry>, key: u64)
    ensures
        final(m)@ == old(m)@.remove(key),
{
    broadcast use vstd::laws_cmp::group_laws_cmp;
    broadcast use group_btree_axioms;

    m.remove(&key);
}

} // verus!
