//! ROR registry data dumps (schema v1 or v2 JSON).
//!
//! Acronyms are deliberately excluded from the aliases: mapping "mit" to
//! "Massachusetts Institute of Technology" would rewrite ordinary words, not
//! restore casing.

use vstd::prelude::*;
use vstd::string::*;
use crate::archive::{copy_bytes, is_zip, zip_data_named, zip_entry_count, zip_file_names, zip_len, zip_magic, zip_named_data, zip_names};
use crate::collections::{StringSet, lemma_finite_set_listing, set_listing, views};
use crate::json::{
    JsonNode, array_opt, as_array, as_object, as_str, decode_json, find_member,
    find_member_exec, get, get_array, get_member, get_object, get_str, item_views, json_decode,
    member_views, str_opt,
};
use crate::sources::common::{contains_text, str_items, str_items_exec};
use crate::lexicon::{RecordModel, Score, ScoreModel, SourceRecord, record_model, record_views, record_tidy, aliases_tidy};
use crate::json::{JsonModel, json_pretty, pretty_json};
use crate::text::{contains_seq, contains_str, encode_utf8, ends_with, ends_with_str, utf8_encode};

verus! {

/// Schema v2: one `names` list with typed entries. Acronyms are skipped, the
/// first `ror_display` name is the canonical, the rest are aliases.
pub open spec fn v2_names(names: Seq<Seq<u8>>) -> (Option<Seq<char>>, Set<Seq<char>>)
    decreases names.len(),
{
    if names.len() == 0 {
        (None, Set::empty())
    } else {
        let (canonical, aliases) = v2_names(names.drop_last());
        let name = names.last();
        match str_opt(get(name, "value"@)) {
            None => (canonical, aliases),
            Some(text) => {
                let types = match array_opt(get(name, "types"@)) {
                    Some(ts) => str_items(ts),
                    None => Seq::empty(),
                };
                if types.contains("acronym"@) {
                    (canonical, aliases)
                } else if types.contains("ror_display"@) && canonical is None {
                    (Some(text), aliases)
                } else {
                    (canonical, aliases.insert(text))
                }
            },
        }
    }
}

/// The texts among the items of an optional JSON array.
pub open spec fn str_array_set(b: Option<Seq<u8>>) -> Set<Seq<char>> {
    match array_opt(b) {
        Some(items) => str_items(items).to_set(),
        None => Set::empty(),
    }
}

/// The `label` texts of schema v1 `labels` entries.
pub open spec fn label_texts(items: Seq<Seq<u8>>) -> Set<Seq<char>>
    decreases items.len(),
{
    if items.len() == 0 {
        Set::empty()
    } else {
        let prev = label_texts(items.drop_last());
        match str_opt(get(items.last(), "label"@)) {
            Some(s) => prev.insert(s),
            None => prev,
        }
    }
}

/// The record of an organization, if it has a canonical name.
pub open spec fn ror_record(item: Seq<u8>) -> Option<RecordModel> {
    match as_object(item) {
        None => None,
        Some(obj) => {
            let (canonical, aliases) = match array_opt(find_member(obj, "names"@)) {
                Some(names) => v2_names(names),
                None => (
                    str_opt(find_member(obj, "name"@)),
                    str_array_set(find_member(obj, "aliases"@)).union(match array_opt(find_member(obj, "labels"@)) {
                        Some(ls) => label_texts(ls),
                        None => Set::empty(),
                    }),
                ),
            };
            match canonical {
                None => None,
                Some(c) => Some(record_model(c, set_listing(aliases.remove(c)), ScoreModel::Hundredths(180))),
            }
        },
    }
}

proof fn lemma_label_texts_finite(items: Seq<Seq<u8>>)
    ensures
        label_texts(items).finite(),
    decreases items.len(),
{
    if items.len() > 0 {
        lemma_label_texts_finite(items.drop_last());
    }
}

/// A schema v1 organization (one without a `names` list) keeps every string
/// of its `aliases` list, other than its `name`, among its record's aliases.
pub proof fn lemma_v1_aliases_kept(
    item: Seq<u8>,
    obj: Seq<(Seq<char>, Seq<u8>)>,
    listed: Seq<Seq<u8>>,
    name: Seq<char>,
    a: Seq<char>,
)
    requires
        as_object(item) == Some(obj),
        array_opt(find_member(obj, "names"@)) is None,
        str_opt(find_member(obj, "name"@)) == Some(name),
        array_opt(find_member(obj, "aliases"@)) == Some(listed),
        str_items(listed).contains(a),
        a != name,
    ensures
        ror_record(item) matches Some(r) && r.canonical == name && r.aliases.contains(a),
{
    let labels = match array_opt(find_member(obj, "labels"@)) {
        Some(ls) => label_texts(ls),
        None => Set::<Seq<char>>::empty(),
    };
    match array_opt(find_member(obj, "labels"@)) {
        Some(ls) => lemma_label_texts_finite(ls),
        None => {},
    }
    vstd::seq_lib::seq_to_set_is_finite(str_items(listed));
    let all = str_array_set(find_member(obj, "aliases"@)).union(labels);
    assert(str_items(listed).to_set().contains(a));
    assert(all.remove(name).contains(a));
    lemma_finite_set_listing(all.remove(name));
}

proof fn lemma_v2_display(names: Seq<Seq<u8>>, i: int, c: Seq<char>)
    requires
        0 <= i < names.len(),
        str_opt(get(names[i], "value"@)) == Some(c),
        !typed_acronym(names[i]),
        array_opt(get(names[i], "types"@)) matches Some(ts) && str_items(ts).contains("ror_display"@),
        forall|j: int|
            0 <= j < i ==> !(str_opt(get(#[trigger] names[j], "value"@)) is Some && !typed_acronym(names[j]) && (array_opt(
                get(names[j], "types"@),
            ) matches Some(ts) && str_items(ts).contains("ror_display"@))),
    ensures
        v2_names(names).0 == Some(c),
    decreases names.len(),
{
    let prev = names.drop_last();
    if i < names.len() - 1 {
        assert(prev[i] == names[i]);
        assert forall|j: int| 0 <= j < i implies !(str_opt(get(#[trigger] prev[j], "value"@)) is Some && !typed_acronym(
            prev[j],
        ) && (array_opt(get(prev[j], "types"@)) matches Some(ts) && str_items(ts).contains("ror_display"@))) by {
            assert(prev[j] == names[j]);
        }
        lemma_v2_display(prev, i, c);
    } else {
        lemma_v2_no_display_before(prev);
    }
}

proof fn lemma_v2_no_display_before(names: Seq<Seq<u8>>)
    requires
        forall|j: int|
            0 <= j < names.len() ==> !(str_opt(get(#[trigger] names[j], "value"@)) is Some && !typed_acronym(names[j])
                && (array_opt(get(names[j], "types"@)) matches Some(ts) && str_items(ts).contains("ror_display"@))),
    ensures
        v2_names(names).0 is None,
    decreases names.len(),
{
    if names.len() > 0 {
        let prev = names.drop_last();
        assert forall|j: int| 0 <= j < prev.len() implies !(str_opt(get(#[trigger] prev[j], "value"@)) is Some
            && !typed_acronym(prev[j]) && (array_opt(get(prev[j], "types"@)) matches Some(ts) && str_items(ts).contains(
            "ror_display"@,
        ))) by {
            assert(prev[j] == names[j]);
        }
        lemma_v2_no_display_before(prev);
        assert(names.last() == names[names.len() - 1]);
    }
}

/// A schema v2 organization is named by the value of its first name typed
/// `ror_display` (and not typed as an acronym).
pub proof fn lemma_v2_display_name(item: Seq<u8>, obj: Seq<(Seq<char>, Seq<u8>)>, names: Seq<Seq<u8>>, i: int, c: Seq<char>)
    requires
        as_object(item) == Some(obj),
        array_opt(find_member(obj, "names"@)) == Some(names),
        0 <= i < names.len(),
        str_opt(get(names[i], "value"@)) == Some(c),
        !typed_acronym(names[i]),
        array_opt(get(names[i], "types"@)) matches Some(ts) && str_items(ts).contains("ror_display"@),
        forall|j: int|
            0 <= j < i ==> !(str_opt(get(#[trigger] names[j], "value"@)) is Some && !typed_acronym(names[j]) && (array_opt(
                get(names[j], "types"@),
            ) matches Some(ts) && str_items(ts).contains("ror_display"@))),
    ensures
        ror_record(item) matches Some(r) && r.canonical == c,
{
    lemma_v2_display(names, i, c);
}

/// Whether a schema v2 name entry is typed as an acronym.
pub open spec fn typed_acronym(name: Seq<u8>) -> bool {
    array_opt(get(name, "types"@)) matches Some(ts) && str_items(ts).contains("acronym"@)
}

proof fn lemma_v2_aliases_come_from_names(names: Seq<Seq<u8>>, a: Seq<char>)
    ensures
        v2_names(names).1.finite(),
        v2_names(names).1.contains(a) ==> exists|i: int|
            0 <= i < names.len() && str_opt(get(#[trigger] names[i], "value"@)) == Some(a) && !typed_acronym(names[i]),
    decreases names.len(),
{
    if names.len() > 0 {
        let prev = names.drop_last();
        lemma_v2_aliases_come_from_names(prev, a);
        if v2_names(prev).1.contains(a) {
            let i = choose|i: int|
                0 <= i < prev.len() && str_opt(get(#[trigger] prev[i], "value"@)) == Some(a) && !typed_acronym(prev[i]);
            assert(names[i] == prev[i]);
        } else if v2_names(names).1.contains(a) {
            let i = names.len() - 1;
            assert(names[i] == names.last());
        }
    }
}

/// Acronyms stay out of a schema v2 organization's aliases: every alias is
/// the value of one of its names that is not typed as an acronym.
pub proof fn lemma_v2_aliases_are_no_acronyms(item: Seq<u8>, obj: Seq<(Seq<char>, Seq<u8>)>, names: Seq<Seq<u8>>, a: Seq<char>)
    requires
        as_object(item) == Some(obj),
        array_opt(find_member(obj, "names"@)) == Some(names),
        ror_record(item) matches Some(r) && r.aliases.contains(a),
    ensures
        exists|i: int|
            0 <= i < names.len() && str_opt(get(#[trigger] names[i], "value"@)) == Some(a) && !typed_acronym(names[i]),
{
    let r = ror_record(item)->0;
    lemma_v2_aliases_come_from_names(names, a);
    lemma_finite_set_listing(v2_names(names).1.remove(r.canonical));
}

pub open spec fn ror_records(items: Seq<Seq<u8>>) -> Seq<RecordModel>
    decreases items.len(),
{
    if items.len() == 0 {
        Seq::empty()
    } else {
        let prev = ror_records(items.drop_last());
        match ror_record(items.last()) {
            Some(r) => prev.push(r),
            None => prev,
        }
    }
}

pub open spec fn not_array_message() -> Seq<char> {
    "ROR payload is not a JSON array of organizations"@
}

pub open spec fn no_records_message() -> Seq<char> {
    "ROR payload did not yield any records"@
}

/// The records of a ROR dump.
pub open spec fn ror_parse(bytes: Seq<u8>) -> Result<Seq<RecordModel>, Seq<char>> {
    match json_decode(bytes) {
        Err(e) => Err(e),
        Ok(_) => match as_array(bytes) {
            None => Err(not_array_message()),
            Some(items) => {
                let records = ror_records(items);
                if records.len() == 0 {
                    Err(no_records_message())
                } else {
                    Ok(records)
                }
            },
        },
    }
}

/// A dump yields the records of its organizations in order: appending an
/// organization that has a record appends that record.
pub proof fn lemma_dump_appends_records(before: Seq<u8>, after: Seq<u8>, items: Seq<Seq<u8>>, item: Seq<u8>, r: RecordModel)
    requires
        json_decode(before) == Ok::<JsonModel, Seq<char>>(JsonModel::Array(items)),
        json_decode(after) == Ok::<JsonModel, Seq<char>>(JsonModel::Array(items.push(item))),
        ror_record(item) == Some(r),
    ensures
        ror_parse(after) == Ok::<Seq<RecordModel>, Seq<char>>(
            match ror_parse(before) {
                Ok(rs) => rs.push(r),
                Err(_) => seq![r],
            },
        ),
{
    assert(items.push(item).drop_last() =~= items);
    assert(items.push(item).last() == item);
    assert(ror_records(items.push(item)) == ror_records(items).push(r));
    if ror_records(items).len() == 0 {
        assert(ror_records(items).push(r) =~= seq![r]);
    }
}

fn v2_names_exec(names: &Vec<Vec<u8>>) -> (r: (Option<String>, StringSet))
    ensures
        (match r.0 {
            Some(s) => Some(s@),
            None => None::<Seq<char>>,
        }, r.1.set()) == v2_names(item_views(names@)),
{
    let ghost nv = item_views(names@);
    let mut canonical: Option<String> = None;
    let mut aliases = StringSet::new();
    assert(aliases.set() =~= Set::<Seq<char>>::empty());
    for i in 0..names.len()
        invariant
            nv == item_views(names@),
            (match canonical {
                Some(s) => Some(s@),
                None => None::<Seq<char>>,
            }, aliases.set()) == v2_names(nv.take(i as int)),
    {
        proof {
            assert(nv.take(i + 1).drop_last() =~= nv.take(i as int));
            assert(nv.take(i + 1).last() == nv[i as int]);
        }
        let value = get_member(names[i].as_slice(), "value");
        let text = match value {
            Some(b) => get_str(b.as_slice()),
            None => None,
        };
        match text {
            Some(text) => {
                let types = match get_member(names[i].as_slice(), "types") {
                    Some(b) => match get_array(b.as_slice()) {
                        Some(ts) => str_items_exec(&ts),
                        None => Vec::new(),
                    },
                    None => Vec::new(),
                };
                assert(views(types@) == match array_opt(get(nv[i as int], "types"@)) {
                    Some(ts) => str_items(ts),
                    None => Seq::<Seq<char>>::empty(),
                });
                if contains_text(&types, "acronym") {
                } else if contains_text(&types, "ror_display") && canonical.is_none() {
                    canonical = Some(text);
                } else {
                    aliases.insert(text);
                }
            },
            None => {},
        }
    }
    assert(nv.take(names.len() as int) =~= nv);
    (canonical, aliases)
}

fn add_str_items(items: &Vec<Vec<u8>>, set: &mut StringSet)
    ensures
        final(set).set() == old(set).set().union(str_items(item_views(items@)).to_set()),
{
    let texts = str_items_exec(items);
    let ghost start = set.set();
    for i in 0..texts.len()
        invariant
            set.set() == start.union(views(texts@).take(i as int).to_set()),
    {
        let t = texts[i].clone();
        set.insert(t);
        proof {
            assert(views(texts@).take(i + 1) =~= views(texts@).take(i as int).push(t@));
            crate::collections::lemma_push_to_set(views(texts@).take(i as int), t@);
        }
        assert(set.set() =~= start.union(views(texts@).take(i + 1).to_set()));
    }
    assert(views(texts@).take(texts.len() as int) =~= views(texts@));
}

fn add_labels(items: &Vec<Vec<u8>>, set: &mut StringSet)
    ensures
        final(set).set() == old(set).set().union(label_texts(item_views(items@))),
{
    let ghost iv = item_views(items@);
    let ghost start = set.set();
    assert(start.union(label_texts(iv.take(0))) =~= start);
    for i in 0..items.len()
        invariant
            iv == item_views(items@),
            set.set() == start.union(label_texts(iv.take(i as int))),
    {
        proof {
            assert(iv.take(i + 1).drop_last() =~= iv.take(i as int));
            assert(iv.take(i + 1).last() == iv[i as int]);
        }
        let label = get_member(items[i].as_slice(), "label");
        let text = match label {
            Some(b) => get_str(b.as_slice()),
            None => None,
        };
        match text {
            Some(t) => {
                set.insert(t);
            },
            None => {},
        }
        assert(set.set() =~= start.union(label_texts(iv.take(i + 1))));
    }
    assert(iv.take(items.len() as int) =~= iv);
}

fn ror_record_exec(item: &Vec<u8>) -> (r: Option<SourceRecord>)
    ensures
        match r {
            Some(rec) => ror_record(item@) == Some(rec@),
            None => ror_record(item@) is None,
        },
        r matches Some(rec) ==> record_tidy(rec@),
{
    let obj = match get_object(item.as_slice()) {
        Some(o) => o,
        None => return None,
    };
    let ghost ov = member_views(obj@);
    let names = match find_member_exec(&obj, "names") {
        Some(b) => get_array(b.as_slice()),
        None => None,
    };
    let (canonical, mut aliases) = match names {
        Some(names) => v2_names_exec(&names),
        None => {
            let canonical = match find_member_exec(&obj, "name") {
                Some(b) => get_str(b.as_slice()),
                None => None,
            };
            let mut aliases = StringSet::new();
            assert(aliases.set() =~= Set::<Seq<char>>::empty());
            match find_member_exec(&obj, "aliases") {
                Some(b) => match get_array(b.as_slice()) {
                    Some(items) => add_str_items(&items, &mut aliases),
                    None => {},
                },
                None => {},
            }
            assert(aliases.set() =~= str_array_set(find_member(ov, "aliases"@)));
            let ghost mid = aliases.set();
            match find_member_exec(&obj, "labels") {
                Some(b) => match get_array(b.as_slice()) {
                    Some(items) => add_labels(&items, &mut aliases),
                    None => {},
                },
                None => {},
            }
            assert(aliases.set() =~= mid.union(match array_opt(find_member(ov, "labels"@)) {
                Some(ls) => label_texts(ls),
                None => Set::<Seq<char>>::empty(),
            }));
            (canonical, aliases)
        },
    };
    let canonical = match canonical {
        Some(c) => c,
        None => return None,
    };
    aliases.remove(canonical.as_str());
    let listed = aliases.into_listing();
    proof {
        if views(listed@).contains(canonical@) {
            assert(views(listed@).to_set().contains(canonical@));
        }
    }
    Some(SourceRecord { canonical, aliases: listed, score: Score::Hundredths(180) })
}

/// Parses a ROR registry dump (schema v1 or v2 JSON).
pub fn parse(bytes: &[u8]) -> (r: Result<Vec<SourceRecord>, String>)
    ensures
        match r {
            Ok(records) => ror_parse(bytes@) == Ok::<Seq<RecordModel>, Seq<char>>(record_views(records@)),
            Err(e) => ror_parse(bytes@) == Err::<Seq<RecordModel>, Seq<char>>(e@),
        },
        r matches Ok(records) ==> aliases_tidy(record_views(records@)),
{
    let items = match decode_json(bytes) {
        Ok(JsonNode::Array(items)) => items,
        Ok(_) => return Err(String::from_str("ROR payload is not a JSON array of organizations")),
        Err(e) => return Err(e),
    };
    let ghost iv = item_views(items@);
    let mut records: Vec<SourceRecord> = Vec::new();
    assert(record_views(records@) =~= ror_records(iv.take(0)));
    for i in 0..items.len()
        invariant
            iv == item_views(items@),
            record_views(records@) == ror_records(iv.take(i as int)),
            aliases_tidy(record_views(records@)),
    {
        proof {
            assert(iv.take(i + 1).drop_last() =~= iv.take(i as int));
            assert(iv.take(i + 1).last() == iv[i as int]);
        }
        match ror_record_exec(&items[i]) {
            Some(rec) => {
                let ghost rv = record_views(records@);
                records.push(rec);
                assert(record_views(records@) =~= rv.push(rec@));
            },
            None => {},
        }
    }
    assert(iv.take(items.len() as int) =~= iv);
    if records.len() == 0 {
        return Err(String::from_str("ROR payload did not yield any records"));
    }
    Ok(records)
}

pub fn validate(bytes: &[u8]) -> (r: Result<(), String>)
    ensures
        r is Ok <==> ror_parse(bytes@) is Ok,
        r matches Err(e) ==> ror_parse(bytes@) == Err::<Seq<RecordModel>, Seq<char>>(e@),
{
    match parse(bytes) {
        Ok(_) => Ok(()),
        Err(e) => Err(e),
    }
}

pub open spec fn is_json_name(n: Seq<char>) -> bool {
    ends_with(n, ".json"@)
}

pub open spec fn is_v2_name(n: Seq<char>) -> bool {
    ends_with(n, ".json"@) && contains_seq(n, "schema_v2"@)
}

/// The first name satisfying `p`.
pub open spec fn first_name(names: Seq<Seq<char>>, p: spec_fn(Seq<char>) -> bool) -> Option<Seq<char>>
    decreases names.len(),
{
    if names.len() == 0 {
        None
    } else if p(names[0]) {
        Some(names[0])
    } else {
        first_name(names.drop_first(), p)
    }
}

pub open spec fn no_json_message() -> Seq<char> {
    "ROR archive did not contain a .json payload"@
}

/// The JSON a ROR download carries: from a Zenodo zip, the schema v2 file
/// (else the first `.json` file); a plain payload as it is.
pub open spec fn ror_extract(bytes: Seq<u8>) -> Result<Seq<u8>, Seq<char>> {
    if !zip_magic(bytes) {
        Ok(bytes)
    } else {
        match zip_len(bytes) {
            Err(e) => Err(e),
            Ok(_) => {
                let names = zip_names(bytes);
                let chosen = match first_name(names, |n: Seq<char>| is_v2_name(n)) {
                    Some(n) => Some(n),
                    None => first_name(names, |n: Seq<char>| is_json_name(n)),
                };
                match chosen {
                    None => Err(no_json_message()),
                    Some(n) => zip_named_data(bytes, n),
                }
            },
        }
    }
}

fn first_name_exec(names: &Vec<String>, v2: bool) -> (r: Option<String>)
    ensures
        match r {
            Some(n) => Some(n@) == (if v2 {
                first_name(views(names@), |n: Seq<char>| is_v2_name(n))
            } else {
                first_name(views(names@), |n: Seq<char>| is_json_name(n))
            }),
            None => (if v2 {
                first_name(views(names@), |n: Seq<char>| is_v2_name(n))
            } else {
                first_name(views(names@), |n: Seq<char>| is_json_name(n))
            }) is None,
        },
{
    let ghost nv = views(names@);
    let ghost p = if v2 {
        |n: Seq<char>| is_v2_name(n)
    } else {
        |n: Seq<char>| is_json_name(n)
    };
    assert(nv.skip(0) =~= nv);
    for i in 0..names.len()
        invariant
            nv == views(names@),
            p == (if v2 {
                |n: Seq<char>| is_v2_name(n)
            } else {
                |n: Seq<char>| is_json_name(n)
            }),
            first_name(nv, p) == first_name(nv.skip(i as int), p),
    {
        proof {
            assert(nv.skip(i as int)[0] == nv[i as int]);
            assert(nv.skip(i as int).drop_first() =~= nv.skip(i + 1));
        }
        let n = names[i].as_str();
        let ok = if v2 {
            ends_with_str(n, ".json") && contains_str(n, "schema_v2")
        } else {
            ends_with_str(n, ".json")
        };
        if ok {
            return Some(names[i].clone());
        }
    }
    assert(nv.skip(names.len() as int).len() == 0);
    None
}

/// ROR publishes the dump as a Zenodo zip holding v1 and v2 JSON files; the
/// v2 schema is preferred. A plain JSON payload passes through.
pub fn extract_payload(bytes: &[u8]) -> (r: Result<Vec<u8>, String>)
    ensures
        match r {
            Ok(v) => ror_extract(bytes@) == Ok::<Seq<u8>, Seq<char>>(v@),
            Err(e) => ror_extract(bytes@) == Err::<Seq<u8>, Seq<char>>(e@),
        },
{
    if !is_zip(bytes) {
        return Ok(copy_bytes(bytes));
    }
    match zip_entry_count(bytes) {
        Ok(_) => {},
        Err(e) => return Err(e),
    }
    let names = zip_file_names(bytes);
    proof {
        assert(names@.map_values(|s: String| s@) == views(names@));
    }
    let chosen = match first_name_exec(&names, true) {
        Some(n) => Some(n),
        None => first_name_exec(&names, false),
    };
    match chosen {
        Some(n) => zip_data_named(bytes, n.as_str()),
        None => Err(String::from_str("ROR archive did not contain a .json payload")),
    }
}


/// A schema v2 record and a schema v1 record, compactly written.
pub open spec fn sample_compact() -> Seq<char> {
    "[{\"id\":\"https://ror.org/05f950310\",\"names\":[{\"lang\":\"sv\",\"types\":[\"ror_display\",\"label\"],\"value\":\"Karolinska Institutet\"},{\"lang\":\"en\",\"types\":[\"label\"],\"value\":\"Karolinska Institute\"},{\"lang\":null,\"types\":[\"acronym\"],\"value\":\"KI\"}]},{\"acronyms\":[\"HU\"],\"aliases\":[\"Harvard\"],\"id\":\"https://ror.org/03vek6s52\",\"labels\":[{\"iso639\":\"fr\",\"label\":\"Université Harvard\"}],\"name\":\"Harvard University\"}]"@
}

/// Two organisations (one per schema version), pretty-printed by serde_json.
pub fn sample(_locale: Option<&str>) -> (r: Vec<u8>)
    ensures
        r@ == json_pretty(utf8_encode(sample_compact())),
{
    let compact = encode_utf8("[{\"id\":\"https://ror.org/05f950310\",\"names\":[{\"lang\":\"sv\",\"types\":[\"ror_display\",\"label\"],\"value\":\"Karolinska Institutet\"},{\"lang\":\"en\",\"types\":[\"label\"],\"value\":\"Karolinska Institute\"},{\"lang\":null,\"types\":[\"acronym\"],\"value\":\"KI\"}]},{\"acronyms\":[\"HU\"],\"aliases\":[\"Harvard\"],\"id\":\"https://ror.org/03vek6s52\",\"labels\":[{\"iso639\":\"fr\",\"label\":\"Université Harvard\"}],\"name\":\"Harvard University\"}]");
    pretty_json(compact.as_slice())
}

} // verus!
