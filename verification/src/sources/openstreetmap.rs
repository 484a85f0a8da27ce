//! OpenStreetMap place names from a Nominatim JSON search (an array of
//! results).

use vstd::prelude::*;
use vstd::string::*;
use crate::collections::{StringSet, lemma_finite_set_listing, set_listing};
use crate::json::{
    JsonModel, JsonNode, as_object, as_str, decode_json, find_member, find_member_exec, get_number_text,
    get_object, get_str, item_views, json_decode, json_encode, json_pretty, json_string, member_views,
    number_text, opt_text, pretty_json, push_bytes, push_text, str_or, text_or,
};
use crate::lexicon::{RecordModel, Score, ScoreModel, SourceRecord, record_model, record_views, record_tidy, aliases_tidy};
use crate::sources::common::make_record;
use crate::text::{chars_of, split_chars, split_on, string_of, trim, trim_chars, utf8_encode};

verus! {

pub open spec fn member_text(o: Seq<(Seq<char>, Seq<u8>)>, key: Seq<char>) -> Option<Seq<char>> {
    match find_member(o, key) {
        Some(b) => as_str(b),
        None => None,
    }
}

pub open spec fn member_number(o: Seq<(Seq<char>, Seq<u8>)>, key: Seq<char>) -> Option<Seq<char>> {
    match find_member(o, key) {
        Some(b) => number_text(b),
        None => None,
    }
}

/// The string values of the `namedetails` members.
pub open spec fn detail_texts(ms: Seq<(Seq<char>, Seq<u8>)>) -> Set<Seq<char>>
    decreases ms.len(),
{
    if ms.len() == 0 {
        Set::empty()
    } else {
        let prev = detail_texts(ms.drop_last());
        match as_str(ms.last().1) {
            Some(t) => prev.insert(t),
            None => prev,
        }
    }
}

pub open spec fn missing_name_message() -> Seq<char> {
    "OpenStreetMap result is missing a name"@
}

/// One result: skipped unless it is an object; named by `name`, else by the
/// first comma-separated part of `display_name` (trimmed); an error when it
/// has neither. The display name and the `namedetails` values are aliases.
pub open spec fn osm_item(item: Seq<u8>) -> Result<Option<RecordModel>, Seq<char>> {
    match as_object(item) {
        None => Ok(None),
        Some(o) => {
            let canonical = match member_text(o, "name"@) {
                Some(n) => Some(n),
                None => match member_text(o, "display_name"@) {
                    Some(d) => Some(trim(split_on(d, ',')[0])),
                    None => None,
                },
            };
            match canonical {
                None => Err(missing_name_message()),
                Some(c) => {
                    let display = match member_text(o, "display_name"@) {
                        Some(d) => Set::empty().insert(d),
                        None => Set::empty(),
                    };
                    let details = match find_member(o, "namedetails"@) {
                        Some(b) => match as_object(b) {
                            Some(ms) => detail_texts(ms),
                            None => Set::empty(),
                        },
                        None => Set::empty(),
                    };
                    let score = ScoreModel::Nominatim(member_number(o, "importance"@), member_number(o, "place_rank"@));
                    Ok(Some(record_model(c, set_listing(display.union(details).remove(c)), score)))
                },
            }
        },
    }
}

proof fn lemma_detail_texts(ms: Seq<(Seq<char>, Seq<u8>)>, k: int, t: Seq<char>)
    requires
        0 <= k < ms.len(),
        as_str(ms[k].1) == Some(t),
    ensures
        detail_texts(ms).contains(t),
    decreases ms.len(),
{
    if k < ms.len() - 1 {
        assert(ms.drop_last()[k] == ms[k]);
        lemma_detail_texts(ms.drop_last(), k, t);
    }
}

proof fn lemma_detail_texts_finite(ms: Seq<(Seq<char>, Seq<u8>)>)
    ensures
        detail_texts(ms).finite(),
    decreases ms.len(),
{
    if ms.len() > 0 {
        lemma_detail_texts_finite(ms.drop_last());
    }
}

/// A result with a text `name` is named by it, and its display name and
/// every text in its `namedetails` other than that name are aliases.
pub proof fn lemma_result_names(item: Seq<u8>, o: Seq<(Seq<char>, Seq<u8>)>, c: Seq<char>, a: Seq<char>)
    requires
        as_object(item) == Some(o),
        member_text(o, "name"@) == Some(c),
        a != c,
        member_text(o, "display_name"@) == Some(a) || (find_member(o, "namedetails"@) matches Some(b) && as_object(b)
            matches Some(ms) && exists|k: int| 0 <= k < ms.len() && as_str(#[trigger] ms[k].1) == Some(a)),
    ensures
        osm_item(item) matches Ok(Some(r)) && r.canonical == c && r.aliases.contains(a),
{
    let display = match member_text(o, "display_name"@) {
        Some(d) => Set::<Seq<char>>::empty().insert(d),
        None => Set::<Seq<char>>::empty(),
    };
    let details = match find_member(o, "namedetails"@) {
        Some(b) => match as_object(b) {
            Some(ms) => detail_texts(ms),
            None => Set::<Seq<char>>::empty(),
        },
        None => Set::<Seq<char>>::empty(),
    };
    if let Some(b) = find_member(o, "namedetails"@) {
        if let Some(ms) = as_object(b) {
            lemma_detail_texts_finite(ms);
            if exists|k: int| 0 <= k < ms.len() && as_str(#[trigger] ms[k].1) == Some(a) {
                let k = choose|k: int| 0 <= k < ms.len() && as_str(#[trigger] ms[k].1) == Some(a);
                lemma_detail_texts(ms, k, a);
            }
        }
    }
    lemma_finite_set_listing(display.union(details).remove(c));
}

pub open spec fn osm_items(items: Seq<Seq<u8>>) -> Result<Seq<RecordModel>, Seq<char>>
    decreases items.len(),
{
    if items.len() == 0 {
        Ok(Seq::empty())
    } else {
        match osm_items(items.drop_last()) {
            Err(e) => Err(e),
            Ok(prev) => match osm_item(items.last()) {
                Err(e) => Err(e),
                Ok(Some(r)) => Ok(prev.push(r)),
                Ok(None) => Ok(prev),
            },
        }
    }
}

pub open spec fn not_array_message() -> Seq<char> {
    "OpenStreetMap payload must be a JSON array"@
}

pub open spec fn no_records_message() -> Seq<char> {
    "OpenStreetMap payload did not yield any records"@
}

pub open spec fn osm_parse(bytes: Seq<u8>) -> Result<Seq<RecordModel>, Seq<char>> {
    match json_decode(bytes) {
        Err(e) => Err(e),
        Ok(JsonModel::Array(items)) => match osm_items(items) {
            Err(e) => Err(e),
            Ok(rs) => if rs.len() == 0 {
                Err(no_records_message())
            } else {
                Ok(rs)
            },
        },
        Ok(_) => Err(not_array_message()),
    }
}

proof fn lemma_error_sticks(items: Seq<Seq<u8>>, i: int, e: Seq<char>)
    requires
        0 <= i <= items.len(),
        osm_items(items.take(i)) == Err::<Seq<RecordModel>, Seq<char>>(e),
    ensures
        osm_items(items) == Err::<Seq<RecordModel>, Seq<char>>(e),
    decreases items.len() - i,
{
    if i < items.len() {
        assert(items.take(i + 1).drop_last() =~= items.take(i));
        lemma_error_sticks(items, i + 1, e);
    } else {
        assert(items.take(i) =~= items);
    }
}

fn osm_item_exec(item: &Vec<u8>) -> (r: Result<Option<SourceRecord>, String>)
    ensures
        match r {
            Ok(Some(rec)) => osm_item(item@) == Ok::<Option<RecordModel>, Seq<char>>(Some(rec@)),
            Ok(None) => osm_item(item@) == Ok::<Option<RecordModel>, Seq<char>>(None),
            Err(e) => osm_item(item@) == Err::<Option<RecordModel>, Seq<char>>(e@),
        },
        r matches Ok(Some(rec)) ==> record_tidy(rec@),
{
    let o = match get_object(item.as_slice()) {
        Some(o) => o,
        None => return Ok(None),
    };
    let ghost ov = member_views(o@);
    let name = match find_member_exec(&o, "name") {
        Some(b) => get_str(b.as_slice()),
        None => None,
    };
    let display = match find_member_exec(&o, "display_name") {
        Some(b) => get_str(b.as_slice()),
        None => None,
    };
    let canonical = match name {
        Some(n) => n,
        None => match &display {
            Some(d) => {
                let cs = chars_of(d.as_str());
                let pieces = split_chars(cs.as_slice(), ',');
                proof {
                    assert(split_on(cs@, ',').len() > 0);
                    assert(pieces@.map_values(|v: Vec<char>| v@).len() == pieces@.len());
                    assert(pieces@.map_values(|v: Vec<char>| v@)[0] == pieces@[0]@);
                }
                let first = trim_chars(pieces[0].as_slice());
                string_of(first.as_slice())
            },
            None => return Err(String::from_str("OpenStreetMap result is missing a name")),
        },
    };
    let mut aliases = StringSet::new();
    assert(aliases.set() =~= Set::<Seq<char>>::empty());
    match &display {
        Some(d) => aliases.insert(d.clone()),
        None => {},
    }
    let ghost with_display = aliases.set();
    let details = match find_member_exec(&o, "namedetails") {
        Some(b) => get_object(b.as_slice()),
        None => None,
    };
    match details {
        Some(ms) => {
            let ghost mv = member_views(ms@);
            assert(aliases.set() =~= with_display.union(detail_texts(mv.take(0))));
            for i in 0..ms.len()
                invariant
                    mv == member_views(ms@),
                    aliases.set() == with_display.union(detail_texts(mv.take(i as int))),
            {
                proof {
                    assert(mv.take(i + 1).drop_last() =~= mv.take(i as int));
                    assert(mv.take(i + 1).last() == mv[i as int]);
                }
                match get_str(ms[i].1.as_slice()) {
                    Some(t) => {
                        aliases.insert(t);
                    },
                    None => {},
                }
                assert(aliases.set() =~= with_display.union(detail_texts(mv.take(i + 1))));
            }
            assert(mv.take(ms.len() as int) =~= mv);
        },
        None => {
            assert(with_display.union(Set::<Seq<char>>::empty()) =~= with_display);
        },
    }
    aliases.remove(canonical.as_str());
    let importance = match find_member_exec(&o, "importance") {
        Some(b) => get_number_text(b.as_slice()),
        None => None,
    };
    let place_rank = match find_member_exec(&o, "place_rank") {
        Some(b) => get_number_text(b.as_slice()),
        None => None,
    };
    Ok(Some(make_record(canonical, aliases, Score::Nominatim { importance, place_rank })))
}

/// Parses a Nominatim JSON result array.
pub fn parse(bytes: &[u8]) -> (r: Result<Vec<SourceRecord>, String>)
    ensures
        match r {
            Ok(records) => osm_parse(bytes@) == Ok::<Seq<RecordModel>, Seq<char>>(record_views(records@)),
            Err(e) => osm_parse(bytes@) == Err::<Seq<RecordModel>, Seq<char>>(e@),
        },
        r matches Ok(records) ==> aliases_tidy(record_views(records@)),
{
    let items = match decode_json(bytes) {
        Ok(JsonNode::Array(items)) => items,
        Ok(_) => return Err(String::from_str("OpenStreetMap payload must be a JSON array")),
        Err(e) => return Err(e),
    };
    let ghost iv = item_views(items@);
    let mut records: Vec<SourceRecord> = Vec::new();
    assert(iv.take(0) =~= Seq::<Seq<u8>>::empty());
    assert(record_views(records@) =~= Seq::<RecordModel>::empty());
    assert(osm_items(iv.take(0)) == Ok::<Seq<RecordModel>, Seq<char>>(record_views(records@)));
    for i in 0..items.len()
        invariant
            iv == item_views(items@),
            json_decode(bytes@) == Ok::<JsonModel, Seq<char>>(JsonModel::Array(iv)),
            osm_items(iv.take(i as int)) == Ok::<Seq<RecordModel>, Seq<char>>(record_views(records@)),
            aliases_tidy(record_views(records@)),
    {
        proof {
            assert(iv.take(i + 1).drop_last() =~= iv.take(i as int));
            assert(iv.take(i + 1).last() == iv[i as int]);
        }
        match osm_item_exec(&items[i]) {
            Ok(Some(rec)) => {
                let ghost rv = record_views(records@);
                records.push(rec);
                assert(record_views(records@) =~= rv.push(rec@));
            },
            Ok(None) => {},
            Err(e) => {
                proof {
                    lemma_error_sticks(iv, i + 1, e@);
                }
                return Err(e);
            },
        }
    }
    assert(iv.take(items.len() as int) =~= iv);
    if records.len() == 0 {
        return Err(String::from_str("OpenStreetMap payload did not yield any records"));
    }
    Ok(records)
}

/// One Nominatim result for Berlin with a name detail keyed `name:` and the
/// region written as `key` (a JSON string), compactly written.
pub open spec fn sample_compact(key: Seq<u8>) -> Seq<u8> {
    utf8_encode("[{\"name\":\"Berlin\",\"display_name\":\"Berlin, Deutschland\",\"importance\":0.85,\"place_rank\":8,\"namedetails\":{\"name\":\"Berlin\",\"name:en\":\"Berlin\","@)
        + key + utf8_encode(":\"Berlin\"}}]"@)
}

/// A Nominatim result array for the region `region` (German by default),
/// pretty-printed by serde_json.
pub fn sample(region: Option<&str>) -> (r: Vec<u8>)
    ensures
        r@ == json_pretty(sample_compact(json_encode(JsonModel::Text("name:"@ + text_or(opt_text(region), "de"@))))),
{
    let mut name_key = String::from_str("name:");
    name_key.append(str_or(region, "de"));
    let key = json_string(name_key.as_str());
    let mut out: Vec<u8> = Vec::new();
    push_text(&mut out, "[{\"name\":\"Berlin\",\"display_name\":\"Berlin, Deutschland\",\"importance\":0.85,\"place_rank\":8,\"namedetails\":{\"name\":\"Berlin\",\"name:en\":\"Berlin\",");
    push_bytes(&mut out, key.as_slice());
    push_text(&mut out, ":\"Berlin\"}}]");
    assert(out@ =~= sample_compact(key@));
    pretty_json(out.as_slice())
}

} // verus!
