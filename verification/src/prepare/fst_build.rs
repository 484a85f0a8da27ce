//! Indexing prepared tables for the FST plugin container, which maps each
//! key to a number: string values go to a side list, and the key maps to the
//! value's position in it.

use vstd::prelude::*;
use crate::collections::{StringMap, entry_keys, lemma_set_listing, set_listing, views};

verus! {

/// Appends the values of a map to `store` in ascending key order and maps
/// each key to the position its value took there.
pub fn index_string_values(values: StringMap<String>, store: &mut Vec<String>) -> (r: StringMap<u64>)
    requires
        old(store)@.len() + values@.dom().len() <= u64::MAX,
    ensures
        r@.dom() == values@.dom(),
        views(final(store)@) == views(old(store)@) + set_listing(values@.dom()).map_values(|k: Seq<char>| values@[k]@),
        forall|i: int| 0 <= i < set_listing(values@.dom()).len()
            ==> r@[#[trigger] set_listing(values@.dom())[i]] == old(store)@.len() + i,
        forall|k: Seq<char>| #[trigger] r@.dom().contains(k)
            ==> r@[k] < final(store)@.len() && final(store)@[r@[k] as int]@ == values@[k]@,
{
    let ghost model = values@;
    let ghost keys = values.keys();
    let ghost start = views(store@);
    let ghost start_len = store@.len();
    let n0 = values.len();
    let entries = values.into_entries();
    proof {
        lemma_set_listing(keys, model.dom());
        assert(entries@.len() == entry_keys(entries@).len());
    }
    let ghost listing = set_listing(model.dom());
    let mut out: StringMap<u64> = StringMap::new();
    for i in 0..entries.len()
        invariant
            entry_keys(entries@) == listing,
            listing == keys,
            keys.to_set() == model.dom(),
            crate::collections::strictly_sorted(keys),
            forall|q: int| 0 <= q < entries@.len() ==> model[#[trigger] entries@[q].0@] == entries@[q].1,
            start_len + entries@.len() <= u64::MAX,
            start_len == old(store)@.len(),
            start == views(old(store)@),
            views(store@) == start + listing.take(i as int).map_values(|k: Seq<char>| model[k]@),
            out@.dom() == listing.take(i as int).to_set(),
            forall|q: int| 0 <= q < i ==> out@[#[trigger] listing[q]] == start_len + q,
    {
        assert(store@.len() == views(store@).len());
        assert(store@.len() == start_len + i);
        let index = store.len() as u64;
        let ghost key = entries@[i as int].0@;
        let ghost before = views(store@);
        let value = entries[i].1.clone();
        assert(value@ == model[key]@);
        store.push(value);
        assert(views(store@) =~= before.push(value@));
        out.insert(entries[i].0.clone(), index);
        proof {
            assert(listing[i as int] == key);
            assert(listing.take(i + 1) =~= listing.take(i as int).push(key));
            crate::collections::lemma_push_to_set(listing.take(i as int), key);
            assert(listing.take(i + 1).map_values(|k: Seq<char>| model[k]@)
                =~= listing.take(i as int).map_values(|k: Seq<char>| model[k]@).push(model[key]@));
            assert forall|q: int| 0 <= q < i + 1 implies out@[#[trigger] listing[q]] == start_len + q by {
                if q < i {
                    assert(crate::text::lex_lt(listing[q], listing[i as int]));
                    crate::text::lemma_lex_irreflexive(listing[q]);
                }
            }
        }
        assert(views(store@) =~= start + listing.take(i + 1).map_values(|k: Seq<char>| model[k]@));
    }
    proof {
        assert(listing.take(entries@.len() as int) =~= listing);
        assert forall|k: Seq<char>| #[trigger] out@.dom().contains(k) implies out@[k] < store@.len()
            && store@[out@[k] as int]@ == model[k]@ by {
            let q = choose|q: int| 0 <= q < listing.len() && listing[q] == k;
            assert(views(store@)[start_len + q] == listing.map_values(|k: Seq<char>| model[k]@)[q]);
        }
    }
    out
}

} // verus!
