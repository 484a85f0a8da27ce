//! Getty vocabularies (AAT, TGN, ULAN) as linked-art JSON records.

use vstd::prelude::*;
use vstd::string::*;
use crate::collections::{StringSet, lemma_finite_set_listing, set_listing};
use crate::json::{
    JsonModel, JsonNode, as_array, as_object, as_str, decode_json, find_member, find_member_exec,
    get_array, get_object, get_str, item_views, json_decode, json_encode, json_pretty, json_string,
    get, member_views, opt_text, pretty_json, push_bytes, push_text, str_opt, str_or, text_or,
};
use crate::lexicon::{RecordModel, Score, ScoreModel, SourceRecord, aliases_tidy, record_model, record_tidy, record_views};
use crate::sources::common::{
    add_member_texts, first_member_text, first_member_text_exec, lemma_member_texts, lemma_member_texts_finite, make_record,
    member_texts,
};
use crate::text::utf8_encode;

verus! {

/// The `identified_by` list of a record, where it is an array.
pub open spec fn identifiers(o: Seq<(Seq<char>, Seq<u8>)>) -> Option<Seq<Seq<u8>>> {
    match find_member(o, "identified_by"@) {
        Some(b) => as_array(b),
        None => None,
    }
}

/// A record is named by its `_label`, else by its first identifier's content;
/// every identifier's content other than the name is an alias.
pub open spec fn getty_record(v: Seq<u8>) -> Option<RecordModel> {
    match as_object(v) {
        None => None,
        Some(o) => {
            let label = match find_member(o, "_label"@) {
                Some(b) => as_str(b),
                None => None,
            };
            let canonical = if label is Some {
                label
            } else {
                match identifiers(o) {
                    Some(items) => first_member_text(items, "content"@),
                    None => None,
                }
            };
            match canonical {
                None => None,
                Some(c) => {
                    let aliases = match identifiers(o) {
                        Some(items) => member_texts(items, "content"@),
                        None => Set::empty(),
                    };
                    Some(record_model(c, set_listing(aliases.remove(c)), ScoreModel::Hundredths(150)))
                },
            }
        },
    }
}

pub open spec fn getty_records(items: Seq<Seq<u8>>) -> Seq<RecordModel>
    decreases items.len(),
{
    if items.len() == 0 {
        Seq::empty()
    } else {
        let prev = getty_records(items.drop_last());
        match getty_record(items.last()) {
            Some(r) => prev.push(r),
            None => prev,
        }
    }
}

/// An array payload yields the records of its items in order: appending a
/// record object to the array appends the record that parsing that object
/// alone yields.
pub proof fn lemma_array_appends_item_records(
    before: Seq<u8>,
    after: Seq<u8>,
    items: Seq<Seq<u8>>,
    item: Seq<u8>,
    ms: Seq<(Seq<char>, Seq<u8>)>,
    r: RecordModel,
)
    requires
        json_decode(before) == Ok::<JsonModel, Seq<char>>(JsonModel::Array(items)),
        json_decode(after) == Ok::<JsonModel, Seq<char>>(JsonModel::Array(items.push(item))),
        json_decode(item) == Ok::<JsonModel, Seq<char>>(JsonModel::Object(ms)),
        getty_parse(item) == Ok::<Seq<RecordModel>, Seq<char>>(seq![r]),
    ensures
        getty_parse(after) == Ok::<Seq<RecordModel>, Seq<char>>(
            match getty_parse(before) {
                Ok(rs) => rs.push(r),
                Err(_) => seq![r],
            },
        ),
{
    match getty_record(item) {
        Some(x) => {
            assert(seq![x][0] == x);
            assert(seq![r][0] == r);
        },
        None => {
            assert(seq![r].len() == 1);
        },
    }
    assert(items.push(item).drop_last() =~= items);
    assert(items.push(item).last() == item);
    assert(getty_records(items.push(item)) == getty_records(items).push(r));
    if getty_records(items).len() == 0 {
        assert(getty_records(items).push(r) =~= seq![r]);
    }
}

/// A record is named by its text `_label`; without one, by the `content` of
/// its first identifier that has a text content.
pub proof fn lemma_record_naming(v: Seq<u8>, o: Seq<(Seq<char>, Seq<u8>)>, c: Seq<char>)
    requires
        as_object(v) == Some(o),
        (match find_member(o, "_label"@) {
            Some(b) => as_str(b),
            None => None,
        }) == Some(c) || ((match find_member(o, "_label"@) {
            Some(b) => as_str(b),
            None => None,
        }) is None && (identifiers(o) matches Some(items) && first_member_text(items, "content"@) == Some(c))),
    ensures
        getty_record(v) matches Some(r) && r.canonical == c,
{
}

/// Every identifier's content other than the record's name is one of its
/// aliases.
pub proof fn lemma_identifiers_are_aliases(v: Seq<u8>, o: Seq<(Seq<char>, Seq<u8>)>, items: Seq<Seq<u8>>, i: int, t: Seq<char>)
    requires
        as_object(v) == Some(o),
        identifiers(o) == Some(items),
        0 <= i < items.len(),
        str_opt(get(items[i], "content"@)) == Some(t),
        getty_record(v) matches Some(r) && r.canonical != t,
    ensures
        getty_record(v) matches Some(r) && r.aliases.contains(t),
{
    let r = getty_record(v)->0;
    lemma_member_texts(items, "content"@, i, t);
    lemma_member_texts_finite(items, "content"@);
    lemma_finite_set_listing(member_texts(items, "content"@).remove(r.canonical));
}

pub open spec fn no_records_message() -> Seq<char> {
    "Getty payload did not yield any records"@
}

/// The records of an array of records, or of one record.
pub open spec fn getty_parse(bytes: Seq<u8>) -> Result<Seq<RecordModel>, Seq<char>> {
    match json_decode(bytes) {
        Err(e) => Err(e),
        Ok(m) => {
            let rs = match m {
                JsonModel::Array(items) => getty_records(items),
                JsonModel::Object(_) => match getty_record(bytes) {
                    Some(r) => seq![r],
                    None => Seq::empty(),
                },
                _ => Seq::empty(),
            };
            if rs.len() == 0 {
                Err(no_records_message())
            } else {
                Ok(rs)
            }
        },
    }
}

fn getty_record_exec(v: &Vec<u8>) -> (r: Option<SourceRecord>)
    ensures
        match r {
            Some(rec) => getty_record(v@) == Some(rec@),
            None => getty_record(v@) is None,
        },
        r matches Some(rec) ==> record_tidy(rec@),
{
    let o = match get_object(v.as_slice()) {
        Some(o) => o,
        None => return None,
    };
    let ghost ov = member_views(o@);
    let ids = match find_member_exec(&o, "identified_by") {
        Some(b) => get_array(b.as_slice()),
        None => None,
    };
    let label = match find_member_exec(&o, "_label") {
        Some(b) => get_str(b.as_slice()),
        None => None,
    };
    let canonical = match label {
        Some(l) => l,
        None => match &ids {
            Some(items) => match first_member_text_exec(items, "content") {
                Some(t) => t,
                None => return None,
            },
            None => return None,
        },
    };
    let mut aliases = StringSet::new();
    assert(aliases.set() =~= Set::<Seq<char>>::empty());
    match &ids {
        Some(items) => {
            add_member_texts(items, "content", &mut aliases);
            assert(aliases.set() =~= member_texts(item_views(items@), "content"@));
        },
        None => {},
    }
    assert(aliases.set() =~= match identifiers(ov) {
        Some(items) => member_texts(items, "content"@),
        None => Set::empty(),
    });
    aliases.remove(canonical.as_str());
    Some(make_record(canonical, aliases, Score::Hundredths(150)))
}

/// Parses Getty linked-art JSON (one record or an array of records).
pub fn parse(bytes: &[u8]) -> (r: Result<Vec<SourceRecord>, String>)
    ensures
        match r {
            Ok(records) => getty_parse(bytes@) == Ok::<Seq<RecordModel>, Seq<char>>(record_views(records@)),
            Err(e) => getty_parse(bytes@) == Err::<Seq<RecordModel>, Seq<char>>(e@),
        },
        r matches Ok(records) ==> aliases_tidy(record_views(records@)),
{
    let node = match decode_json(bytes) {
        Ok(n) => n,
        Err(e) => return Err(e),
    };
    let mut records: Vec<SourceRecord> = Vec::new();
    match node {
        JsonNode::Array(items) => {
            let ghost iv = item_views(items@);
            assert(record_views(records@) =~= getty_records(iv.take(0)));
            for i in 0..items.len()
                invariant
                    iv == item_views(items@),
                    record_views(records@) == getty_records(iv.take(i as int)),
                    aliases_tidy(record_views(records@)),
            {
                proof {
                    assert(iv.take(i + 1).drop_last() =~= iv.take(i as int));
                    assert(iv.take(i + 1).last() == iv[i as int]);
                }
                match getty_record_exec(&items[i]) {
                    Some(rec) => {
                        let ghost rv = record_views(records@);
                        records.push(rec);
                        assert(record_views(records@) =~= rv.push(rec@));
                    },
                    None => {},
                }
            }
            assert(iv.take(items.len() as int) =~= iv);
        },
        JsonNode::Object(_) => {
            let whole = crate::json::copy_bytes_vec(bytes);
            match getty_record_exec(&whole) {
                Some(rec) => {
                    records.push(rec);
                    assert(record_views(records@) =~= seq![rec@]);
                },
                None => {
                    assert(record_views(records@) =~= Seq::<RecordModel>::empty());
                },
            }
        },
        _ => {
            assert(record_views(records@) =~= Seq::<RecordModel>::empty());
        },
    }
    if records.len() == 0 {
        return Err(String::from_str("Getty payload did not yield any records"));
    }
    Ok(records)
}

/// Van Gogh's ULAN record with two names in the language written as `code`,
/// compactly written.
pub open spec fn sample_compact(code: Seq<u8>) -> Seq<u8> {
    utf8_encode("{\"@context\":\"https://linked.art/ns/v1/linked-art.json\",\"_label\":\"Gogh, Vincent van\",\"identified_by\":[{\"content\":\"Vincent van Gogh\",\"language\":"@)
        + code + utf8_encode("},{\"content\":\"van Gogh, Vincent\",\"language\":"@) + code + utf8_encode("}]}"@)
}

/// One linked-art record (English by default), pretty-printed by serde_json.
pub fn sample(locale: Option<&str>) -> (r: Vec<u8>)
    ensures
        r@ == json_pretty(sample_compact(json_encode(JsonModel::Text(text_or(opt_text(locale), "en"@))))),
{
    let code = json_string(str_or(locale, "en"));
    let mut out: Vec<u8> = Vec::new();
    push_text(&mut out, "{\"@context\":\"https://linked.art/ns/v1/linked-art.json\",\"_label\":\"Gogh, Vincent van\",\"identified_by\":[{\"content\":\"Vincent van Gogh\",\"language\":");
    push_bytes(&mut out, code.as_slice());
    push_text(&mut out, "},{\"content\":\"van Gogh, Vincent\",\"language\":");
    push_bytes(&mut out, code.as_slice());
    push_text(&mut out, "}]}");
    assert(out@ =~= sample_compact(code@));
    pretty_json(out.as_slice())
}

} // verus!
