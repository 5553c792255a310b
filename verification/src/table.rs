//! Walking over tables keyed by process or task.

use std::collections::HashMap;
use vstd::prelude::*;

verus! {

broadcast use vstd::std_specs::hash::group_hash_axioms;

/// The keys of a table, each once, in no particular order.
pub fn keys<V>(table: &HashMap<i32, V>) -> (all: Vec<i32>)
    ensures
        all@.no_duplicates(),
        all@.to_set() == table@.dom(),
{
    let mut all: Vec<i32> = Vec::new();
    for key in iter: table.keys()
        invariant
            all@ == iter.seq().unref().take(iter.index() as int),
    {
        all.push(*key);
        assert(all@ =~= iter.seq().unref().take(iter.index() + 1));
    }
    assert(all@ =~= vstd::std_specs::iter::IteratorSpec::remaining(&table.keys()).unref());
    all
}

/// Whether a table maps some key to `value`.
pub fn holds_value(table: &HashMap<i32, i32>, value: i32) -> (found: bool)
    ensures
        found == table@.contains_value(value),
{
    let all = keys(table);
    for i in 0..all.len()
        invariant
            all@.to_set() == table@.dom(),
            forall|j: int| 0 <= j < i ==> #[trigger] table@[all@[j]] != value,
    {
        let key: i32 = all[i];
        assert(all@.to_set().contains(all@[i as int]));
        match table.get(&key) {
            Some(held) => if *held == value {
                assert(table@.dom().contains(key) && table@[key] == value);
                return true;
            },
            None => {},
        }
    }
    proof {
        if table@.contains_value(value) {
            let key = choose|key: i32| table@.dom().contains(key) && table@[key] == value;
            assert(all@.to_set().contains(key));
            let j = choose|j: int| 0 <= j < all@.len() && all@[j] == key;
            assert(table@[all@[j]] == value);
        }
    }
    false
}

} // verus!
