//! MusicBrainz ws/2 JSON: search results (`artists`, `releases`, `works`,
//! `recordings`), a bare array, or one entity.

use vstd::prelude::*;
use vstd::string::*;
use crate::collections::{StringSet, lemma_finite_set_listing, set_listing};
use crate::json::{
    JsonModel, JsonNode, as_array, as_object, as_str, decode_json, find_member, find_member_exec,
    get_array, get_object, get_str, item_views, json_decode, json_encode, json_pretty, json_string,
    get, member_views, opt_text, pretty_json, push_bytes, push_text, str_opt, str_or, text_or,
};
use crate::lexicon::{RecordModel, Score, ScoreModel, SourceRecord, record_model, record_views, record_tidy, aliases_tidy};
use crate::sources::common::{add_member_texts, lemma_member_texts, lemma_member_texts_finite, make_record, member_texts};
use crate::text::{chars_of, has_lowercase, has_uppercase, mixed_case, utf8_encode};

verus! {

/// Whether a name mixes lower and upper case, as brand names do (`iPhone`).
pub fn is_mixed_case_brand(value: &str) -> (r: bool)
    ensures
        r == mixed_case(value@),
{
    has_lowercase(value) && has_uppercase(value)
}

pub open spec fn member_str(o: Seq<(Seq<char>, Seq<u8>)>, key: Seq<char>) -> Option<Seq<char>> {
    match find_member(o, key) {
        Some(b) => as_str(b),
        None => None,
    }
}

/// An entity is named by its `name` member (its `title` where it has no
/// `name`); its sort name, alias names and disambiguation are aliases.
pub open spec fn mb_record(v: Seq<u8>) -> Option<RecordModel> {
    match as_object(v) {
        None => None,
        Some(o) => {
            let named = if find_member(o, "name"@) is Some {
                find_member(o, "name"@)
            } else {
                find_member(o, "title"@)
            };
            let canonical = match named {
                Some(b) => as_str(b),
                None => None,
            };
            match canonical {
                None => None,
                Some(c) => {
                    let sort = match member_str(o, "sort-name"@) {
                        Some(s) => Set::empty().insert(s),
                        None => Set::empty(),
                    };
                    let listed = match find_member(o, "aliases"@) {
                        Some(b) => match as_array(b) {
                            Some(items) => member_texts(items, "name"@),
                            None => Set::empty(),
                        },
                        None => Set::empty(),
                    };
                    let disambiguation = match member_str(o, "disambiguation"@) {
                        Some(d) => if d.len() > 0 {
                            Set::empty().insert(d)
                        } else {
                            Set::empty()
                        },
                        None => Set::empty(),
                    };
                    let aliases = sort.union(listed).union(disambiguation).remove(c);
                    let score: nat = if mixed_case(c) {
                        200
                    } else {
                        120
                    };
                    Some(record_model(c, set_listing(aliases), ScoreModel::Hundredths(score)))
                },
            }
        },
    }
}

/// An entity with a text `name` (or, having no `name`, a text `title`) makes
/// a record with that canonical form, whose aliases hold its sort name, the
/// names in its `aliases` list and its non-empty disambiguation, each where
/// it differs from the canonical.
pub proof fn lemma_entity_record(v: Seq<u8>, o: Seq<(Seq<char>, Seq<u8>)>, c: Seq<char>, a: Seq<char>)
    requires
        as_object(v) == Some(o),
        member_str(o, "name"@) == Some(c) || (find_member(o, "name"@) is None && member_str(o, "title"@) == Some(c)),
        a != c,
        member_str(o, "sort-name"@) == Some(a) || (member_str(o, "disambiguation"@) == Some(a) && a.len() > 0)
            || (find_member(o, "aliases"@) matches Some(b) && as_array(b) matches Some(items) && exists|i: int|
            0 <= i < items.len() && str_opt(get(#[trigger] items[i], "name"@)) == Some(a)),
    ensures
        mb_record(v) matches Some(r) && r.canonical == c && r.aliases.contains(a),
{
    let listed = match find_member(o, "aliases"@) {
        Some(b) => match as_array(b) {
            Some(items) => member_texts(items, "name"@),
            None => Set::<Seq<char>>::empty(),
        },
        None => Set::<Seq<char>>::empty(),
    };
    if let Some(b) = find_member(o, "aliases"@) {
        if let Some(items) = as_array(b) {
            lemma_member_texts_finite(items, "name"@);
            if exists|i: int| 0 <= i < items.len() && str_opt(get(#[trigger] items[i], "name"@)) == Some(a) {
                let i = choose|i: int| 0 <= i < items.len() && str_opt(get(#[trigger] items[i], "name"@)) == Some(a);
                lemma_member_texts(items, "name"@, i, a);
            }
        }
    }
    let r = mb_record(v)->0;
    let sort = match member_str(o, "sort-name"@) {
        Some(s) => Set::<Seq<char>>::empty().insert(s),
        None => Set::<Seq<char>>::empty(),
    };
    let disambiguation = match member_str(o, "disambiguation"@) {
        Some(d) => if d.len() > 0 {
            Set::<Seq<char>>::empty().insert(d)
        } else {
            Set::<Seq<char>>::empty()
        },
        None => Set::<Seq<char>>::empty(),
    };
    let all = sort.union(listed).union(disambiguation).remove(c);
    assert(all.contains(a));
    lemma_finite_set_listing(all);
}

pub open spec fn mb_records(items: Seq<Seq<u8>>) -> Seq<RecordModel>
    decreases items.len(),
{
    if items.len() == 0 {
        Seq::empty()
    } else {
        let prev = mb_records(items.drop_last());
        match mb_record(items.last()) {
            Some(r) => prev.push(r),
            None => prev,
        }
    }
}

/// The records of the result list `key`, where it is an array.
pub open spec fn list_records(o: Seq<(Seq<char>, Seq<u8>)>, key: Seq<char>) -> Seq<RecordModel> {
    match find_member(o, key) {
        Some(b) => match as_array(b) {
            Some(items) => mb_records(items),
            None => Seq::empty(),
        },
        None => Seq::empty(),
    }
}

pub open spec fn object_records(bytes: Seq<u8>, o: Seq<(Seq<char>, Seq<u8>)>) -> Seq<RecordModel> {
    let listed = list_records(o, "artists"@) + list_records(o, "releases"@) + list_records(o, "works"@)
        + list_records(o, "recordings"@);
    if listed.len() == 0 {
        match mb_record(bytes) {
            Some(r) => seq![r],
            None => Seq::empty(),
        }
    } else {
        listed
    }
}

pub open spec fn no_records_message() -> Seq<char> {
    "MusicBrainz payload did not yield any records"@
}

pub open spec fn musicbrainz_parse(bytes: Seq<u8>) -> Result<Seq<RecordModel>, Seq<char>> {
    match json_decode(bytes) {
        Err(e) => Err(e),
        Ok(m) => {
            let rs = match m {
                JsonModel::Object(o) => object_records(bytes, o),
                JsonModel::Array(items) => mb_records(items),
                _ => Seq::empty(),
            };
            if rs.len() == 0 {
                Err(no_records_message())
            } else {
                Ok(rs)
            }
        },
    }
}

proof fn lemma_item_record_listed(items: Seq<Seq<u8>>, i: int, r: RecordModel)
    requires
        0 <= i < items.len(),
        mb_record(items[i]) == Some(r),
    ensures
        mb_records(items).contains(r),
    decreases items.len(),
{
    let prev = items.drop_last();
    if i < items.len() - 1 {
        assert(prev[i] == items[i]);
        lemma_item_record_listed(prev, i, r);
        let k = choose|k: int| 0 <= k < mb_records(prev).len() && mb_records(prev)[k] == r;
        match mb_record(items.last()) {
            Some(x) => assert(mb_records(prev).push(x)[k] == r),
            None => {},
        }
    } else {
        assert(mb_records(prev).push(r)[mb_records(prev).len() as int] == r);
    }
}

/// Every item of an object payload's "artists", "releases", "works" or
/// "recordings" list that makes a record (one with a name or title) is among
/// the parsed records.
pub proof fn lemma_listed_items_are_parsed(
    bytes: Seq<u8>,
    o: Seq<(Seq<char>, Seq<u8>)>,
    key: Seq<char>,
    list: Seq<u8>,
    items: Seq<Seq<u8>>,
    i: int,
    r: RecordModel,
)
    requires
        json_decode(bytes) == Ok::<JsonModel, Seq<char>>(JsonModel::Object(o)),
        key == "artists"@ || key == "releases"@ || key == "works"@ || key == "recordings"@,
        find_member(o, key) == Some(list),
        as_array(list) == Some(items),
        0 <= i < items.len(),
        mb_record(items[i]) == Some(r),
    ensures
        musicbrainz_parse(bytes) matches Ok(rs) && rs.contains(r),
{
    lemma_item_record_listed(items, i, r);
    let a = list_records(o, "artists"@);
    let b = list_records(o, "releases"@);
    let c = list_records(o, "works"@);
    let d = list_records(o, "recordings"@);
    let k = choose|k: int| 0 <= k < mb_records(items).len() && mb_records(items)[k] == r;
    let all = a + b + c + d;
    if key == "artists"@ {
        assert(all[k] == r);
    } else if key == "releases"@ {
        assert(all[a.len() + k] == r);
    } else if key == "works"@ {
        assert(all[a.len() + b.len() + k] == r);
    } else {
        assert(all[a.len() + b.len() + c.len() + k] == r);
    }
    assert(all.contains(r));
}

/// Every item of an array payload that makes a record is among the parsed
/// records.
pub proof fn lemma_array_items_are_parsed(bytes: Seq<u8>, items: Seq<Seq<u8>>, i: int, r: RecordModel)
    requires
        json_decode(bytes) == Ok::<JsonModel, Seq<char>>(JsonModel::Array(items)),
        0 <= i < items.len(),
        mb_record(items[i]) == Some(r),
    ensures
        musicbrainz_parse(bytes) matches Ok(rs) && rs.contains(r),
{
    lemma_item_record_listed(items, i, r);
}

fn mb_record_exec(v: &Vec<u8>) -> (r: Option<SourceRecord>)
    ensures
        match r {
            Some(rec) => mb_record(v@) == Some(rec@),
            None => mb_record(v@) is None,
        },
        r matches Some(rec) ==> record_tidy(rec@),
{
    let o = match get_object(v.as_slice()) {
        Some(o) => o,
        None => return None,
    };
    let ghost ov = member_views(o@);
    let named = match find_member_exec(&o, "name") {
        Some(b) => Some(b),
        None => find_member_exec(&o, "title"),
    };
    let canonical = match named {
        Some(b) => match get_str(b.as_slice()) {
            Some(c) => c,
            None => return None,
        },
        None => return None,
    };
    let mut aliases = StringSet::new();
    assert(aliases.set() =~= Set::<Seq<char>>::empty());
    match find_member_exec(&o, "sort-name") {
        Some(b) => match get_str(b.as_slice()) {
            Some(s) => aliases.insert(s),
            None => {},
        },
        None => {},
    }
    let ghost sort = aliases.set();
    let items = match find_member_exec(&o, "aliases") {
        Some(b) => get_array(b.as_slice()),
        None => None,
    };
    match items {
        Some(items) => add_member_texts(&items, "name", &mut aliases),
        None => {
            assert(sort.union(Set::<Seq<char>>::empty()) =~= sort);
        },
    }
    let ghost with_listed = aliases.set();
    match find_member_exec(&o, "disambiguation") {
        Some(b) => match get_str(b.as_slice()) {
            Some(d) => {
                if chars_of(d.as_str()).len() > 0 {
                    aliases.insert(d);
                }
            },
            None => {},
        },
        None => {},
    }
    assert(aliases.set() =~= with_listed.union(match member_str(ov, "disambiguation"@) {
        Some(d) => if d.len() > 0 {
            Set::empty().insert(d)
        } else {
            Set::empty()
        },
        None => Set::empty(),
    }));
    aliases.remove(canonical.as_str());
    let score: u32 = if is_mixed_case_brand(canonical.as_str()) {
        200
    } else {
        120
    };
    Some(make_record(canonical, aliases, Score::Hundredths(score)))
}

fn mb_records_exec(items: &Vec<Vec<u8>>) -> (r: Vec<SourceRecord>)
    ensures
        record_views(r@) == mb_records(item_views(items@)),
        aliases_tidy(record_views(r@)),
{
    let ghost iv = item_views(items@);
    let mut records: Vec<SourceRecord> = Vec::new();
    assert(record_views(records@) =~= mb_records(iv.take(0)));
    for i in 0..items.len()
        invariant
            iv == item_views(items@),
            record_views(records@) == mb_records(iv.take(i as int)),
            aliases_tidy(record_views(records@)),
    {
        proof {
            assert(iv.take(i + 1).drop_last() =~= iv.take(i as int));
            assert(iv.take(i + 1).last() == iv[i as int]);
        }
        match mb_record_exec(&items[i]) {
            Some(rec) => {
                let ghost rv = record_views(records@);
                records.push(rec);
                assert(record_views(records@) =~= rv.push(rec@));
            },
            None => {},
        }
    }
    assert(iv.take(items.len() as int) =~= iv);
    records
}

fn list_records_exec(o: &Vec<(String, Vec<u8>)>, key: &str, records: &mut Vec<SourceRecord>)
    requires
        aliases_tidy(record_views(old(records)@)),
    ensures
        record_views(final(records)@) == record_views(old(records)@) + list_records(member_views(o@), key@),
        aliases_tidy(record_views(final(records)@)),
{
    let items = match find_member_exec(o, key) {
        Some(b) => get_array(b.as_slice()),
        None => None,
    };
    match items {
        Some(items) => {
            let mut found = mb_records_exec(&items);
            let ghost before = record_views(records@);
            let ghost added = record_views(found@);
            records.append(&mut found);
            assert(record_views(records@) =~= before + added);
        },
        None => {
            assert(record_views(records@) =~= record_views(records@) + Seq::<RecordModel>::empty());
        },
    }
}

/// Parses MusicBrainz JSON.
pub fn parse(bytes: &[u8]) -> (r: Result<Vec<SourceRecord>, String>)
    ensures
        match r {
            Ok(records) => musicbrainz_parse(bytes@) == Ok::<Seq<RecordModel>, Seq<char>>(record_views(records@)),
            Err(e) => musicbrainz_parse(bytes@) == Err::<Seq<RecordModel>, Seq<char>>(e@),
        },
        r matches Ok(records) ==> aliases_tidy(record_views(records@)),
{
    let node = match decode_json(bytes) {
        Ok(n) => n,
        Err(e) => return Err(e),
    };
    let mut records: Vec<SourceRecord> = Vec::new();
    match node {
        JsonNode::Object(o) => {
            let ghost ov = member_views(o@);
            assert(record_views(records@) =~= Seq::<RecordModel>::empty());
            list_records_exec(&o, "artists", &mut records);
            list_records_exec(&o, "releases", &mut records);
            list_records_exec(&o, "works", &mut records);
            list_records_exec(&o, "recordings", &mut records);
            assert(record_views(records@) =~= list_records(ov, "artists"@) + list_records(ov, "releases"@)
                + list_records(ov, "works"@) + list_records(ov, "recordings"@));
            if records.len() == 0 {
                let whole = crate::json::copy_bytes_vec(bytes);
                match mb_record_exec(&whole) {
                    Some(rec) => {
                        records.push(rec);
                        assert(record_views(records@) =~= seq![rec@]);
                    },
                    None => {},
                }
            }
        },
        JsonNode::Array(items) => {
            records = mb_records_exec(&items);
        },
        _ => {
            assert(record_views(records@) =~= Seq::<RecordModel>::empty());
        },
    }
    if records.len() == 0 {
        return Err(String::from_str("MusicBrainz payload did not yield any records"));
    }
    Ok(records)
}

/// An artist search result (Björk and a release-like entry) with aliases in
/// the locale written as `code`, compactly written.
pub open spec fn sample_compact(code: Seq<u8>) -> Seq<u8> {
    utf8_encode("{\"artists\":[{\"name\":\"Björk\",\"sort-name\":\"Bjork\",\"aliases\":[{\"name\":\"bjork\",\"locale\":"@) + code
        + utf8_encode("},{\"name\":\"Björk Guðmundsdóttir\",\"locale\":"@) + code
        + utf8_encode("}]},{\"name\":\"Kind of Blue\",\"aliases\":[{\"name\":\"kind of blue\",\"locale\":"@) + code
        + utf8_encode("}]}]}"@)
}

/// A search result (English by default), pretty-printed by serde_json.
pub fn sample(locale: Option<&str>) -> (r: Vec<u8>)
    ensures
        r@ == json_pretty(sample_compact(json_encode(JsonModel::Text(text_or(opt_text(locale), "en"@))))),
{
    let code = json_string(str_or(locale, "en"));
    let c = code.as_slice();
    let mut out: Vec<u8> = Vec::new();
    push_text(&mut out, "{\"artists\":[{\"name\":\"Björk\",\"sort-name\":\"Bjork\",\"aliases\":[{\"name\":\"bjork\",\"locale\":");
    push_bytes(&mut out, c);
    push_text(&mut out, "},{\"name\":\"Björk Guðmundsdóttir\",\"locale\":");
    push_bytes(&mut out, c);
    push_text(&mut out, "}]},{\"name\":\"Kind of Blue\",\"aliases\":[{\"name\":\"kind of blue\",\"locale\":");
    push_bytes(&mut out, c);
    push_text(&mut out, "}]}]}");
    assert(out@ =~= sample_compact(code@));
    pretty_json(out.as_slice())
}

} // verus!
