//! Multiword maps: the lookup entries whose key and value both span words.

use vstd::prelude::*;
use crate::collections::{StringMap, pair_views, text_map};
use crate::lexicon::{RecordModel, SourceRecord, record_views};
use crate::prepare::normalize::{lookup_entries, sorted_lookup_entries};
use crate::text::contains_char;

verus! {

/// Whether a lookup entry spans words on both sides.
pub open spec fn multiword(e: (Seq<char>, Seq<char>)) -> bool {
    e.0.contains(' ') && e.1.contains(' ')
}

/// Applies `Map::insert` for each multiword pair in order.
pub open spec fn insert_multiword(m: Map<Seq<char>, Seq<char>>, pairs: Seq<(Seq<char>, Seq<char>)>) -> Map<Seq<char>, Seq<char>>
    decreases pairs.len(),
{
    if pairs.len() == 0 {
        m
    } else {
        let prev = insert_multiword(m, pairs.drop_last());
        if multiword(pairs.last()) {
            prev.insert(pairs.last().0, pairs.last().1)
        } else {
            prev
        }
    }
}

pub open spec fn multiword_map_of(records: Seq<RecordModel>) -> Map<Seq<char>, Seq<char>>
    decreases records.len(),
{
    if records.len() == 0 {
        Map::empty()
    } else {
        insert_multiword(multiword_map_of(records.drop_last()), sorted_lookup_entries(records.last()))
    }
}

pub fn build(records: &[SourceRecord]) -> (r: StringMap<String>)
    ensures
        text_map(r@) == multiword_map_of(record_views(records@)),
{
    let mut out: StringMap<String> = StringMap::new();
    let ghost rv = record_views(records@);
    assert(text_map(out@) =~= Map::<Seq<char>, Seq<char>>::empty());
    for i in 0..records.len()
        invariant
            rv == record_views(records@),
            text_map(out@) == multiword_map_of(rv.take(i as int)),
    {
        let entries = lookup_entries(&records[i]);
        let ghost prev = multiword_map_of(rv.take(i as int));
        let ghost pv = pair_views(entries@);
        assert(rv[i as int] == records@[i as int]@);
        for j in 0..entries.len()
            invariant
                pv == pair_views(entries@),
                text_map(out@) == insert_multiword(prev, pv.take(j as int)),
        {
            let ghost before = out@;
            proof {
                assert(pv.take(j + 1).drop_last() =~= pv.take(j as int));
                assert(pv[j as int] == (entries@[j as int].0@, entries@[j as int].1@));
            }
            if contains_char(entries[j].0.as_str(), ' ') && contains_char(entries[j].1.as_str(), ' ') {
                let key = entries[j].0.clone();
                let value = entries[j].1.clone();
                out.insert(key, value);
                proof {
                    assert(text_map(out@) =~= text_map(before).insert(pv[j as int].0, pv[j as int].1));
                }
            }
        }
        proof {
            assert(pv.take(entries.len() as int) =~= pv);
            assert(rv.take(i + 1).drop_last() =~= rv.take(i as int));
        }
    }
    proof {
        assert(rv.take(records.len() as int) =~= rv);
    }
    out
}

proof fn lemma_insert_multiword_spans(m: Map<Seq<char>, Seq<char>>, pairs: Seq<(Seq<char>, Seq<char>)>, k: Seq<char>)
    requires
        forall|q: Seq<char>| #[trigger] m.dom().contains(q) ==> q.contains(' ') && m[q].contains(' '),
        insert_multiword(m, pairs).dom().contains(k),
    ensures
        k.contains(' ') && insert_multiword(m, pairs)[k].contains(' '),
    decreases pairs.len(),
{
    if pairs.len() > 0 {
        let prev = insert_multiword(m, pairs.drop_last());
        if multiword(pairs.last()) && pairs.last().0 == k {
        } else {
            lemma_insert_multiword_spans(m, pairs.drop_last(), k);
        }
    }
}

/// Every entry of a multiword map spans words on both sides: its key and its
/// value each hold a space.
pub proof fn lemma_multiword_entries_span_words(records: Seq<RecordModel>, k: Seq<char>)
    requires
        multiword_map_of(records).dom().contains(k),
    ensures
        k.contains(' '),
        multiword_map_of(records)[k].contains(' '),
    decreases records.len(),
{
    if records.len() > 0 {
        let prev = multiword_map_of(records.drop_last());
        assert forall|q: Seq<char>| #[trigger] prev.dom().contains(q) implies q.contains(' ') && prev[q].contains(' ') by {
            lemma_multiword_entries_span_words(records.drop_last(), q);
        }
        lemma_insert_multiword_spans(prev, sorted_lookup_entries(records.last()), k);
    }
}

} // verus!
