//! Canonical-form maps: every lookup key to the casing it restores.

use vstd::prelude::*;
use crate::collections::{StringMap, insert_pairs, pair_views, text_map};
use crate::lexicon::{RecordModel, SourceRecord, record_views};
use crate::prepare::normalize::{lookup_entries, sorted_lookup_entries};
use crate::text::{is_mixed_case, mixed_case, str_lowercase, to_lowercase};

verus! {

/// All lookup entries of the records, record after record; a later entry for
/// a key replaces an earlier one.
pub open spec fn canonical_map_of(records: Seq<RecordModel>) -> Map<Seq<char>, Seq<char>>
    decreases records.len(),
{
    if records.len() == 0 {
        Map::empty()
    } else {
        insert_pairs(canonical_map_of(records.drop_last()), sorted_lookup_entries(records.last()))
    }
}

pub fn build(records: &[SourceRecord]) -> (r: StringMap<String>)
    ensures
        text_map(r@) == canonical_map_of(record_views(records@)),
{
    let mut out: StringMap<String> = StringMap::new();
    let ghost rv = record_views(records@);
    assert(text_map(out@) =~= Map::<Seq<char>, Seq<char>>::empty());
    for i in 0..records.len()
        invariant
            rv == record_views(records@),
            text_map(out@) == canonical_map_of(rv.take(i as int)),
    {
        let entries = lookup_entries(&records[i]);
        let ghost prev = canonical_map_of(rv.take(i as int));
        let ghost pv = pair_views(entries@);
        assert(rv[i as int] == records@[i as int]@);
        for j in 0..entries.len()
            invariant
                pv == pair_views(entries@),
                text_map(out@) == insert_pairs(prev, pv.take(j as int)),
        {
            let key = entries[j].0.clone();
            let value = entries[j].1.clone();
            let ghost before = out@;
            out.insert(key, value);
            proof {
                assert(pv.take(j + 1).drop_last() =~= pv.take(j as int));
                assert(text_map(out@) =~= text_map(before).insert(pv[j as int].0, pv[j as int].1));
            }
        }
        proof {
            assert(pv.take(entries.len() as int) =~= pv);
            assert(rv.take(i + 1).drop_last() =~= rv.take(i as int));
        }
    }
    proof {
        assert(rv.take(records.len() as int) =~= rv);
    }
    out
}

/// Each record whose canonical mixes letter cases, looked up under its
/// lowercase; a later record replaces an earlier one with the same key.
pub open spec fn protected_map_of(records: Seq<RecordModel>) -> Map<Seq<char>, Seq<char>>
    decreases records.len(),
{
    if records.len() == 0 {
        Map::empty()
    } else {
        let prev = protected_map_of(records.drop_last());
        let c = records.last().canonical;
        if mixed_case(c) {
            prev.insert(str_lowercase(c), c)
        } else {
            prev
        }
    }
}

pub fn build_protected(records: &[SourceRecord]) -> (r: StringMap<String>)
    ensures
        text_map(r@) == protected_map_of(record_views(records@)),
{
    let mut out: StringMap<String> = StringMap::new();
    let ghost rv = record_views(records@);
    assert(text_map(out@) =~= Map::<Seq<char>, Seq<char>>::empty());
    for i in 0..records.len()
        invariant
            rv == record_views(records@),
            text_map(out@) == protected_map_of(rv.take(i as int)),
    {
        let record = &records[i];
        let ghost before = out@;
        proof {
            assert(rv[i as int] == record@);
            assert(rv.take(i + 1).drop_last() =~= rv.take(i as int));
            assert(rv.take(i + 1).last() == record@);
        }
        if is_mixed_case(record.canonical.as_str()) {
            out.insert(to_lowercase(record.canonical.as_str()), record.canonical.clone());
            proof {
                assert(text_map(out@) =~= text_map(before).insert(
                    str_lowercase(record.canonical@),
                    record.canonical@,
                ));
            }
        }
    }
    proof {
        assert(rv.take(records.len() as int) =~= rv);
    }
    out
}

/// Every protected form mixes letter cases and is looked up under its
/// lowercase.
pub proof fn lemma_protected_forms_mixed_case(records: Seq<RecordModel>, k: Seq<char>)
    requires
        protected_map_of(records).dom().contains(k),
    ensures
        mixed_case(protected_map_of(records)[k]),
        k == str_lowercase(protected_map_of(records)[k]),
    decreases records.len(),
{
    if records.len() > 0 {
        let c = records.last().canonical;
        if !(mixed_case(c) && k == str_lowercase(c)) {
            lemma_protected_forms_mixed_case(records.drop_last(), k);
        }
    }
}

} // verus!
