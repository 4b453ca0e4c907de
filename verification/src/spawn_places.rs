//! The spawn places of a floor by noise key, in std's `BTreeMap`: each key
//! keeps the last place that has it, and the keys come out in increasing order.

use vstd::prelude::*;
use std::collections::BTreeMap;
use vstd::std_specs::btree::spec_keys_iter;
use vstd::std_specs::cmp::OrdSpec;
use vstd::std_specs::iter::IteratorSpec;

verus! {

/// Place `p` is the last of the first `n` places whose key is `v`.
pub open spec fn last_place_upto(keys: Seq<i32>, n: usize, v: i32, p: usize) -> bool {
    &&& p < n
    &&& keys[p as int] == v
    &&& forall|j: int| p < j < n ==> keys[j] != v
}

/// Some place among the first `n` has key `v`.
pub open spec fn key_seen(keys: Seq<i32>, n: usize, v: i32) -> bool {
    exists|j: int| 0 <= j < n && keys[j] == v
}

/// Collects the places into a map from noise key to place, inserting them in
/// order, so that a key shared by several places keeps the last of them.
pub fn last_place_by_key(keys: &Vec<i32>) -> (places: BTreeMap<i32, usize>)
    ensures
        forall|v: i32| #[trigger] places@.contains_key(v) <==> key_seen(keys@, keys.len(), v),
        forall|v: i32|
            #[trigger] places@.contains_key(v) ==> last_place_upto(keys@, keys.len(), v, places@[v]),
{
    broadcast use vstd::laws_cmp::group_laws_cmp;

    let mut places: BTreeMap<i32, usize> = BTreeMap::new();
    let mut i: usize = 0;
    while i < keys.len()
        invariant
            i <= keys.len(),
            forall|v: i32| #[trigger] places@.contains_key(v) <==> key_seen(keys@, i, v),
            forall|v: i32| #[trigger] places@.contains_key(v) ==> last_place_upto(keys@, i, v, places@[v]),
        decreases keys.len() - i,
    {
        let v = keys[i];
        let ghost before = i;
        places.insert(v, i);
        i = i + 1;
        proof {
            assert forall|w: i32| #[trigger] places@.contains_key(w) <==> key_seen(keys@, i, w) by {
                if key_seen(keys@, i, w) && w != v {
                    let j = choose|j: int| 0 <= j < i && keys@[j] == w;
                    assert(j < before);
                    assert(key_seen(keys@, before, w));
                }
            }
        }
    }
    places
}

/// The keys of the map, each once, in increasing order.
pub fn ascending_keys(places: &BTreeMap<i32, usize>) -> (ks: Vec<i32>)
    ensures
        ks@.to_set() == places@.dom(),
        ks@.no_duplicates(),
        forall|a: int, b: int| 0 <= a < b < ks@.len() ==> ks@[a] < ks@[b],
{
    broadcast use vstd::laws_cmp::group_laws_cmp;

    let mut ks: Vec<i32> = Vec::new();
    let ghost all = spec_keys_iter(places).remaining();
    for k in it: places.keys()
        invariant
            all == spec_keys_iter(places).remaining(),
            it.seq() == all,
            ks@.len() == it.index(),
            forall|a: int| 0 <= a < ks@.len() ==> ks@[a] == *all[a],
    {
        ks.push(*k);
    }
    proof {
        assert(ks@ =~= all.unref());
        assert forall|a: int, b: int| 0 <= a < b < ks@.len() implies ks@[a] < ks@[b] by {
            assert(OrdSpec::cmp_spec(&all[a], &all[b]) is Less);
        }
    }
    ks
}

/// The place stored under key `v`.
pub fn place_of(places: &BTreeMap<i32, usize>, v: i32) -> (p: usize)
    requires
        places@.contains_key(v),
    ensures
        p == places@[v],
{
    broadcast use vstd::laws_cmp::group_laws_cmp;

    match places.get(&v) {
        Some(p) => *p,
        None => 0,
    }
}

} // verus!
