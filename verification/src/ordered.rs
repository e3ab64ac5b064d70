//! Ordered listings of maps and sets keyed by integers.

use std::collections::{BTreeMap, BTreeSet};

use vstd::prelude::*;
use vstd::std_specs::cmp::OrdSpec;
use vstd::std_specs::iter::IteratorSpec;

verus! {

/// `list` holds the entries of `map`, each once, by ascending key.
pub open spec fn lists_u64(list: Seq<(u64, u64)>, map: Map<u64, u64>) -> bool {
    &&& forall|i: int, j: int|
        0 <= i < j < list.len() ==> (#[trigger] list[i]).0 < (#[trigger] list[j]).0
    &&& forall|i: int|
        0 <= i < list.len() ==> map.contains_key((#[trigger] list[i]).0) && map[list[i].0]
            == list[i].1
    &&& forall|k: u64| #[trigger] map.contains_key(k) ==> list.contains((k, map[k]))
}

/// `list` holds the entries of `map`, each once, by ascending key.
pub open spec fn lists_u32(list: Seq<(u32, u64)>, map: Map<u32, u64>) -> bool {
    &&& forall|i: int, j: int|
        0 <= i < j < list.len() ==> (#[trigger] list[i]).0 < (#[trigger] list[j]).0
    &&& forall|i: int|
        0 <= i < list.len() ==> map.contains_key((#[trigger] list[i]).0) && map[list[i].0]
            == list[i].1
    &&& forall|k: u32| #[trigger] map.contains_key(k) ==> list.contains((k, map[k]))
}

/// `list` holds the members of `set`, each once, ascending.
pub open spec fn lists_i32(list: Seq<i32>, set: Set<i32>) -> bool {
    &&& forall|i: int, j: int| 0 <= i < j < list.len() ==> (#[trigger] list[i]) < (#[trigger] list[j])
    &&& forall|k: i32| #[trigger] set.contains(k) <==> list.contains(k)
}

/// The entries of a map by ascending key.
pub fn entries_u64(map: &BTreeMap<u64, u64>) -> (list: Vec<(u64, u64)>)
    ensures
        lists_u64(list@, map@),
{
    broadcast use vstd::std_specs::btree::group_btree_axioms;
    broadcast use vstd::laws_cmp::group_laws_cmp;

    let mut list: Vec<(u64, u64)> = Vec::new();
    let iter = map.iter();
    let ghost all = iter.remaining();
    let ghost keys = all.map_values(|kv: (&u64, &u64)| *kv.0);
    assert(vstd::std_specs::btree::increasing_seq(keys));
    for kv in it: iter
        invariant
            it.seq() == all,
            list@.len() == it.index(),
            forall|i: int|
                0 <= i < list@.len() ==> (#[trigger] list@[i]).0 == *all[i].0 && list@[i].1
                    == *all[i].1,
    {
        list.push((*kv.0, *kv.1));
    }
    proof {
        assert forall|i: int, j: int| 0 <= i < j < list@.len() implies (#[trigger] list@[i]).0 < (
        #[trigger] list@[j]).0 by {
            assert(vstd::laws_cmp::obeys_cmp::<u64>());
            assert(keys[i].cmp_spec(&keys[j]) is Less);
            assert(keys[i] == list@[i].0 && keys[j] == list@[j].0);
        }
        assert forall|i: int| 0 <= i < list@.len() implies map@.contains_key(
            (#[trigger] list@[i]).0,
        ) && map@[list@[i].0] == list@[i].1 by {
            assert(map@.contains_key(*all[i].0));
        }
        assert forall|k: u64| #[trigger] map@.contains_key(k) implies list@.contains(
            (k, map@[k]),
        ) by {
            assert(all.contains((&k, &map@[k])));
            let i = choose|i: int| 0 <= i < all.len() && all[i] == (&k, &map@[k]);
            assert(list@[i] == (k, map@[k]));
        }
    }
    list
}

/// The entries of a map by ascending key.
pub fn entries_u32(map: &BTreeMap<u32, u64>) -> (list: Vec<(u32, u64)>)
    ensures
        lists_u32(list@, map@),
{
    broadcast use vstd::std_specs::btree::group_btree_axioms;
    broadcast use vstd::laws_cmp::group_laws_cmp;

    let mut list: Vec<(u32, u64)> = Vec::new();
    let iter = map.iter();
    let ghost all = iter.remaining();
    let ghost keys = all.map_values(|kv: (&u32, &u64)| *kv.0);
    assert(vstd::std_specs::btree::increasing_seq(keys));
    for kv in it: iter
        invariant
            it.seq() == all,
            list@.len() == it.index(),
            forall|i: int|
                0 <= i < list@.len() ==> (#[trigger] list@[i]).0 == *all[i].0 && list@[i].1
                    == *all[i].1,
    {
        list.push((*kv.0, *kv.1));
    }
    proof {
        assert forall|i: int, j: int| 0 <= i < j < list@.len() implies (#[trigger] list@[i]).0 < (
        #[trigger] list@[j]).0 by {
            assert(vstd::laws_cmp::obeys_cmp::<u32>());
            assert(keys[i].cmp_spec(&keys[j]) is Less);
            assert(keys[i] == list@[i].0 && keys[j] == list@[j].0);
        }
        assert forall|i: int| 0 <= i < list@.len() implies map@.contains_key(
            (#[trigger] list@[i]).0,
        ) && map@[list@[i].0] == list@[i].1 by {
            assert(map@.contains_key(*all[i].0));
        }
        assert forall|k: u32| #[trigger] map@.contains_key(k) implies list@.contains(
            (k, map@[k]),
        ) by {
            assert(all.contains((&k, &map@[k])));
            let i = choose|i: int| 0 <= i < all.len() && all[i] == (&k, &map@[k]);
            assert(list@[i] == (k, map@[k]));
        }
    }
    list
}

/// The members of a set, ascending.
pub fn members_i32(set: &BTreeSet<i32>) -> (list: Vec<i32>)
    ensures
        lists_i32(list@, set@),
{
    broadcast use vstd::std_specs::btree::group_btree_axioms;
    broadcast use vstd::laws_cmp::group_laws_cmp;

    let mut list: Vec<i32> = Vec::new();
    let iter = set.iter();
    let ghost all = iter.remaining();
    for k in it: iter
        invariant
            it.seq() == all,
            list@.len() == it.index(),
            forall|i: int| 0 <= i < list@.len() ==> (#[trigger] list@[i]) == *all[i],
    {
        list.push(*k);
    }
    proof {
        let plain = all.unref();
        assert(plain.to_set() == set@);
        assert(list@ =~= plain);
        assert forall|k: i32| #[trigger] set@.contains(k) <==> list@.contains(k) by {
            assert(plain.to_set().contains(k) <==> plain.contains(k));
        }
        assert(vstd::std_specs::btree::increasing_seq(all));
        assert(vstd::laws_cmp::obeys_cmp::<&i32>());
        assert forall|i: int, j: int| 0 <= i < j < list@.len() implies (#[trigger] list@[i]) < (
        #[trigger] list@[j]) by {
            assert(OrdSpec::cmp_spec(&all[i], &all[j]) is Less);
            assert((*all[i]).cmp_spec(&*all[j]) is Less);
        }
    }
    list
}

} // verus!
