//! Unicode CLDR locale display names (cldr-json `localenames`).
//!
//! Every display value becomes its own canonical record; the map keys are
//! locale codes ("DE", "fr", "US-alt-short"), not text, so they are never
//! used as aliases.

use vstd::prelude::*;
use vstd::string::*;
use crate::collections::{StringSet, lemma_finite_set_listing, set_listing, views};
use crate::json::{
    JsonModel, JsonNode, as_str, decode_json, encode_json, find_member,
    find_member_exec, get, get_member, get_object, get_str, item_views, json_decode, json_encode,
    json_pretty, member_views, object_opt, pretty_json,
};
use crate::lexicon::{RecordModel, Score, ScoreModel, SourceRecord, record_model, record_views};
use crate::json::{json_string, opt_text, push_bytes, push_text, str_or, text_or};
use crate::text::{any_char, chars_of, has_alphabetic, is_alphabetic, str_eq, trim, trim_str, utf8_encode};

verus! {

/// The cldr-json release tag the built-in workflow is pinned to.
pub open spec fn cldr_json_version() -> Seq<char> {
    "47.0.0"@
}

pub open spec fn download_base(lang: Seq<char>) -> Seq<char> {
    "https://raw.githubusercontent.com/unicode-org/cldr-json/47.0.0/cldr-json/cldr-localenames-full/main/"@
        + lang
}

/// Returns the pinned cldr-json URLs for one locale's display names.
pub fn built_in_download(lang: &str) -> (r: (String, Vec<String>))
    ensures
        r.0@ == download_base(lang@),
        views(r.1@) == seq![download_base(lang@) + "/territories.json"@, download_base(lang@) + "/languages.json"@],
{
    let mut base = String::from_str(
        "https://raw.githubusercontent.com/unicode-org/cldr-json/47.0.0/cldr-json/cldr-localenames-full/main/",
    );
    base.append(lang);
    let mut territories = base.clone();
    territories.append("/territories.json");
    let mut languages = base.clone();
    languages.append("/languages.json");
    let urls = vec![territories, languages];
    assert(views(urls@) =~= seq![download_base(lang@) + "/territories.json"@, download_base(lang@) + "/languages.json"@]);
    (base, urls)
}

/// Merges fetched CLDR documents into one JSON array payload; the first
/// document that is not JSON is an error.
pub open spec fn cldr_merge(downloads: Seq<Seq<u8>>) -> Result<Seq<u8>, Seq<char>>
    decreases downloads.len(),
{
    if downloads.len() == 0 {
        Ok(json_encode(JsonModel::Array(Seq::empty())))
    } else {
        match cldr_merge(downloads.drop_last()) {
            Err(e) => Err(e),
            Ok(_) => match json_decode(downloads.last()) {
                Err(e) => Err(e),
                Ok(_) => Ok(json_encode(JsonModel::Array(downloads))),
            },
        }
    }
}

/// Merging documents that are all JSON gives the JSON array of them, in
/// download order.
pub proof fn lemma_merge_keeps_every_document(downloads: Seq<Seq<u8>>)
    requires
        forall|i: int| 0 <= i < downloads.len() ==> json_decode(#[trigger] downloads[i]) is Ok,
    ensures
        cldr_merge(downloads) == Ok::<Seq<u8>, Seq<char>>(json_encode(JsonModel::Array(downloads))),
    decreases downloads.len(),
{
    if downloads.len() > 0 {
        let prev = downloads.drop_last();
        assert forall|i: int| 0 <= i < prev.len() implies json_decode(#[trigger] prev[i]) is Ok by {
            assert(prev[i] == downloads[i]);
        }
        lemma_merge_keeps_every_document(prev);
        assert(json_decode(downloads[downloads.len() - 1]) is Ok);
        assert(downloads.last() == downloads[downloads.len() - 1]);
    } else {
        assert(downloads =~= Seq::<Seq<u8>>::empty());
    }
}

proof fn lemma_merge_prefix_ok(d: Seq<Seq<u8>>, i: int)
    requires
        0 <= i <= d.len(),
        forall|k: int| 0 <= k < i ==> json_decode(#[trigger] d[k]) is Ok,
    ensures
        cldr_merge(d.take(i)) == Ok::<Seq<u8>, Seq<char>>(json_encode(JsonModel::Array(d.take(i)))),
    decreases i,
{
    if i > 0 {
        assert(d.take(i).drop_last() =~= d.take(i - 1));
        lemma_merge_prefix_ok(d, i - 1);
        assert(d.take(i).last() == d[i - 1]);
    } else {
        assert(d.take(0) =~= Seq::<Seq<u8>>::empty());
    }
}

proof fn lemma_merge_error(d: Seq<Seq<u8>>, i: int, j: int, e: Seq<char>)
    requires
        0 <= i < j <= d.len(),
        forall|k: int| 0 <= k < i ==> json_decode(#[trigger] d[k]) is Ok,
        json_decode(d[i]) == Err::<JsonModel, Seq<char>>(e),
    ensures
        cldr_merge(d.take(j)) == Err::<Seq<u8>, Seq<char>>(e),
    decreases j,
{
    assert(d.take(j).drop_last() =~= d.take(j - 1));
    assert(d.take(j).last() == d[j - 1]);
    if j - 1 > i {
        lemma_merge_error(d, i, j - 1, e);
    } else {
        lemma_merge_prefix_ok(d, i);
    }
}

pub fn merge(downloads: Vec<Vec<u8>>) -> (r: Result<Vec<u8>, String>)
    ensures
        match r {
            Ok(v) => cldr_merge(item_views(downloads@)) == Ok::<Seq<u8>, Seq<char>>(v@),
            Err(e) => cldr_merge(item_views(downloads@)) == Err::<Seq<u8>, Seq<char>>(e@),
        },
{
    let ghost d = item_views(downloads@);
    for i in 0..downloads.len()
        invariant
            d == item_views(downloads@),
            forall|k: int| 0 <= k < i ==> json_decode(#[trigger] d[k]) is Ok,
    {
        match decode_json(downloads[i].as_slice()) {
            Ok(_) => {},
            Err(e) => {
                proof {
                    lemma_merge_error(d, i as int, d.len() as int, e@);
                    assert(d.take(d.len() as int) =~= d);
                }
                return Err(e);
            },
        }
    }
    proof {
        lemma_merge_prefix_ok(d, d.len() as int);
        assert(d.take(d.len() as int) =~= d);
    }
    Ok(encode_json(&JsonNode::Array(downloads)))
}

/// A display value is kept when, trimmed, it is not empty, differs from its
/// code (an untranslated placeholder echoes the code), and has a letter.
pub open spec fn kept_display(code: Seq<char>, display: Seq<char>) -> bool {
    trim(display).len() > 0 && trim(display) != code && any_char(trim(display), |c: char| is_alphabetic(c))
}

/// The display names of a territories or languages section.
pub open spec fn entry_names(entries: Seq<(Seq<char>, Seq<u8>)>) -> Set<Seq<char>>
    decreases entries.len(),
{
    if entries.len() == 0 {
        Set::empty()
    } else {
        let prev = entry_names(entries.drop_last());
        match as_str(entries.last().1) {
            Some(d) => if kept_display(entries.last().0, d) {
                prev.insert(trim(d))
            } else {
                prev
            },
            None => prev,
        }
    }
}

pub open spec fn section_names(display_names: Seq<(Seq<char>, Seq<u8>)>, section: Seq<char>) -> Set<Seq<char>> {
    match object_opt(find_member(display_names, section)) {
        Some(entries) => entry_names(entries),
        None => Set::empty(),
    }
}

pub open spec fn locale_names(locale_doc: Seq<u8>) -> Set<Seq<char>> {
    match object_opt(get(locale_doc, "localeDisplayNames"@)) {
        Some(dn) => section_names(dn, "territories"@).union(section_names(dn, "languages"@)),
        None => Set::empty(),
    }
}

pub open spec fn locales_names(locales: Seq<(Seq<char>, Seq<u8>)>) -> Set<Seq<char>>
    decreases locales.len(),
{
    if locales.len() == 0 {
        Set::empty()
    } else {
        locales_names(locales.drop_last()).union(locale_names(locales.last().1))
    }
}

pub open spec fn doc_names(doc: Seq<u8>) -> Set<Seq<char>> {
    match object_opt(get(doc, "main"@)) {
        Some(locales) => locales_names(locales),
        None => Set::empty(),
    }
}

pub open spec fn docs_names(docs: Seq<Seq<u8>>) -> Set<Seq<char>>
    decreases docs.len(),
{
    if docs.len() == 0 {
        Set::empty()
    } else {
        docs_names(docs.drop_last()).union(doc_names(docs.last()))
    }
}

/// The documents of a payload: the items of a top-level array, or the payload.
pub open spec fn cldr_docs(bytes: Seq<u8>, m: JsonModel) -> Seq<Seq<u8>> {
    match m {
        JsonModel::Array(items) => items,
        _ => seq![bytes],
    }
}

pub open spec fn no_names_message() -> Seq<char> {
    "CLDR payload did not yield any display names"@
}

pub open spec fn name_record(c: Seq<char>) -> RecordModel {
    record_model(c, Seq::empty(), ScoreModel::Hundredths(200))
}

/// The records of a CLDR payload: one per display name, in name order.
pub open spec fn cldr_parse(bytes: Seq<u8>) -> Result<Seq<RecordModel>, Seq<char>> {
    match json_decode(bytes) {
        Err(e) => Err(e),
        Ok(m) => {
            let names = docs_names(cldr_docs(bytes, m));
            if names.len() == 0 {
                Err(no_names_message())
            } else {
                Ok(set_listing(names).map_values(|c: Seq<char>| name_record(c)))
            }
        },
    }
}

proof fn lemma_entry_names(entries: Seq<(Seq<char>, Seq<u8>)>, k: int, d: Seq<char>)
    requires
        0 <= k < entries.len(),
        as_str(entries[k].1) == Some(d),
        kept_display(entries[k].0, d),
    ensures
        entry_names(entries).contains(trim(d)),
    decreases entries.len(),
{
    if k < entries.len() - 1 {
        assert(entries.drop_last()[k] == entries[k]);
        lemma_entry_names(entries.drop_last(), k, d);
    }
}

proof fn lemma_entry_names_finite(entries: Seq<(Seq<char>, Seq<u8>)>)
    ensures
        entry_names(entries).finite(),
    decreases entries.len(),
{
    if entries.len() > 0 {
        lemma_entry_names_finite(entries.drop_last());
    }
}

proof fn lemma_locale_names_finite(doc: Seq<u8>)
    ensures
        locale_names(doc).finite(),
{
    if let Some(dn) = object_opt(get(doc, "localeDisplayNames"@)) {
        if let Some(e) = object_opt(find_member(dn, "territories"@)) {
            lemma_entry_names_finite(e);
        }
        if let Some(e) = object_opt(find_member(dn, "languages"@)) {
            lemma_entry_names_finite(e);
        }
    }
}

proof fn lemma_locales_names(locales: Seq<(Seq<char>, Seq<u8>)>, i: int, n: Seq<char>)
    ensures
        locales_names(locales).finite(),
        0 <= i < locales.len() && locale_names(locales[i].1).contains(n) ==> locales_names(locales).contains(n),
    decreases locales.len(),
{
    if locales.len() > 0 {
        lemma_locales_names(locales.drop_last(), i, n);
        lemma_locale_names_finite(locales.last().1);
        if 0 <= i < locales.len() - 1 {
            assert(locales.drop_last()[i] == locales[i]);
        }
    }
}

proof fn lemma_docs_names(docs: Seq<Seq<u8>>, j: int, n: Seq<char>)
    ensures
        docs_names(docs).finite(),
        0 <= j < docs.len() && doc_names(docs[j]).contains(n) ==> docs_names(docs).contains(n),
    decreases docs.len(),
{
    if docs.len() > 0 {
        lemma_docs_names(docs.drop_last(), j, n);
        if let Some(locales) = object_opt(get(docs.last(), "main"@)) {
            lemma_locales_names(locales, 0, n);
        }
        if 0 <= j < docs.len() - 1 {
            assert(docs.drop_last()[j] == docs[j]);
        }
    }
}

/// Every territory or language display name of any locale of any document
/// is a record (trimmed), unless it is blank, echoes its code (an
/// untranslated placeholder) or has no letter.
pub proof fn lemma_display_names_are_records(
    bytes: Seq<u8>,
    doc: Seq<u8>,
    locales: Seq<(Seq<char>, Seq<u8>)>,
    i: int,
    section: Seq<char>,
    entries: Seq<(Seq<char>, Seq<u8>)>,
    k: int,
    d: Seq<char>,
)
    requires
        json_decode(bytes) matches Ok(m) && (if m is Array {
            m->Array_0.contains(doc)
        } else {
            doc == bytes
        }),
        object_opt(get(doc, "main"@)) == Some(locales),
        0 <= i < locales.len(),
        object_opt(get(locales[i].1, "localeDisplayNames"@)) matches Some(dn) && object_opt(find_member(dn, section))
            == Some(entries),
        section == "territories"@ || section == "languages"@,
        0 <= k < entries.len(),
        as_str(entries[k].1) == Some(d),
        trim(d).len() > 0,
        trim(d) != entries[k].0,
        any_char(trim(d), |c: char| is_alphabetic(c)),
    ensures
        cldr_parse(bytes) matches Ok(rs) && rs.contains(name_record(trim(d))),
{
    let m = json_decode(bytes)->Ok_0;
    let docs = cldr_docs(bytes, m);
    let n = trim(d);
    lemma_entry_names(entries, k, d);
    assert(locale_names(locales[i].1).contains(n));
    lemma_locales_names(locales, i, n);
    assert(doc_names(doc).contains(n));
    let j: int = if m is Array {
        choose|j: int| 0 <= j < docs.len() && docs[j] == doc
    } else {
        0
    };
    if !(m is Array) {
        assert(docs[0] == doc);
    }
    lemma_docs_names(docs, j, n);
    let names = docs_names(docs);
    lemma_finite_set_listing(names);
    let listing = set_listing(names);
    let q = choose|q: int| 0 <= q < listing.len() && listing[q] == n;
    assert(listing.map_values(|c: Seq<char>| name_record(c))[q] == name_record(n));
}

fn add_entry_names(entries: &Vec<(String, Vec<u8>)>, names: &mut StringSet)
    ensures
        final(names).set() == old(names).set().union(entry_names(member_views(entries@))),
{
    let ghost mv = member_views(entries@);
    let ghost start = names.set();
    assert(start.union(entry_names(mv.take(0))) =~= start);
    for i in 0..entries.len()
        invariant
            mv == member_views(entries@),
            names.set() == start.union(entry_names(mv.take(i as int))),
    {
        proof {
            assert(mv.take(i + 1).drop_last() =~= mv.take(i as int));
            assert(mv.take(i + 1).last() == mv[i as int]);
        }
        let ghost prev = names.set();
        match get_str(entries[i].1.as_slice()) {
            Some(display) => {
                let trimmed = trim_str(display.as_str());
                let len = chars_of(trimmed.as_str()).len();
                if len > 0 && !str_eq(trimmed.as_str(), entries[i].0.as_str()) && has_alphabetic(trimmed.as_str()) {
                    names.insert(trimmed);
                    assert(names.set() =~= start.union(entry_names(mv.take(i + 1))));
                }
            },
            None => {},
        }
    }
    assert(mv.take(entries.len() as int) =~= mv);
}

fn add_locale_names(locale_doc: &Vec<u8>, names: &mut StringSet)
    ensures
        final(names).set() == old(names).set().union(locale_names(locale_doc@)),
{
    let ghost start = names.set();
    let dn_bytes = get_member(locale_doc.as_slice(), "localeDisplayNames");
    let dn = match dn_bytes {
        Some(b) => get_object(b.as_slice()),
        None => None,
    };
    match dn {
        Some(members) => {
            let ghost mv = member_views(members@);
            match find_member_exec(&members, "territories") {
                Some(t) => match get_object(t.as_slice()) {
                    Some(es) => add_entry_names(&es, names),
                    None => {},
                },
                None => {},
            }
            assert(names.set() =~= start.union(section_names(mv, "territories"@)));
            match find_member_exec(&members, "languages") {
                Some(t) => match get_object(t.as_slice()) {
                    Some(es) => add_entry_names(&es, names),
                    None => {},
                },
                None => {},
            }
            assert(names.set() =~= start.union(locale_names(locale_doc@)));
        },
        None => {
            assert(start.union(locale_names(locale_doc@)) =~= start);
        },
    }
}

fn add_doc_names(doc: &Vec<u8>, names: &mut StringSet)
    ensures
        final(names).set() == old(names).set().union(doc_names(doc@)),
{
    let ghost start = names.set();
    let main = get_member(doc.as_slice(), "main");
    let locales = match main {
        Some(b) => get_object(b.as_slice()),
        None => None,
    };
    match locales {
        Some(ls) => {
            let ghost lv = member_views(ls@);
            assert(start.union(locales_names(lv.take(0))) =~= start);
            for i in 0..ls.len()
                invariant
                    lv == member_views(ls@),
                    names.set() == start.union(locales_names(lv.take(i as int))),
            {
                proof {
                    assert(lv.take(i + 1).drop_last() =~= lv.take(i as int));
                    assert(lv.take(i + 1).last() == lv[i as int]);
                }
                add_locale_names(&ls[i].1, names);
                assert(names.set() =~= start.union(locales_names(lv.take(i + 1))));
            }
            assert(lv.take(ls.len() as int) =~= lv);
        },
        None => {
            assert(start.union(doc_names(doc@)) =~= start);
        },
    }
}

/// Parses CLDR locale display names (territories and languages).
pub fn parse(bytes: &[u8]) -> (r: Result<Vec<SourceRecord>, String>)
    ensures
        match r {
            Ok(records) => cldr_parse(bytes@) == Ok::<Seq<RecordModel>, Seq<char>>(record_views(records@)),
            Err(e) => cldr_parse(bytes@) == Err::<Seq<RecordModel>, Seq<char>>(e@),
        },
{
    let node = match decode_json(bytes) {
        Ok(n) => n,
        Err(e) => return Err(e),
    };
    let docs: Vec<Vec<u8>> = match node {
        JsonNode::Array(items) => items,
        _ => {
            let mut one: Vec<Vec<u8>> = Vec::new();
            let mut copy: Vec<u8> = Vec::new();
            for k in 0..bytes.len()
                invariant
                    copy@ == bytes@.take(k as int),
            {
                copy.push(bytes[k]);
                assert(copy@ =~= bytes@.take(k + 1));
            }
            assert(bytes@.take(bytes.len() as int) =~= bytes@);
            one.push(copy);
            one
        },
    };
    let ghost dv = item_views(docs@);
    proof {
        let m = json_decode(bytes@)->Ok_0;
        assert(dv =~= cldr_docs(bytes@, m));
    }
    let mut names = StringSet::new();
    assert(names.set() =~= docs_names(dv.take(0)));
    for i in 0..docs.len()
        invariant
            dv == item_views(docs@),
            names.set() == docs_names(dv.take(i as int)),
    {
        proof {
            assert(dv.take(i + 1).drop_last() =~= dv.take(i as int));
            assert(dv.take(i + 1).last() == dv[i as int]);
        }
        add_doc_names(&docs[i], &mut names);
    }
    assert(dv.take(docs.len() as int) =~= dv);
    if names.len() == 0 {
        proof {
            assert(names@.len() == 0);
            assert(names.set() =~= Set::<Seq<char>>::empty());
        }
        return Err(String::from_str("CLDR payload did not yield any display names"));
    }
    let ghost s = names.set();
    proof {
        assert(names@.len() > 0);
        assert(s.contains(names@[0]));
        vstd::seq_lib::seq_to_set_is_finite(names@);
    }
    let listed = names.into_listing();
    let mut records: Vec<SourceRecord> = Vec::new();
    for i in 0..listed.len()
        invariant
            views(listed@) == set_listing(s),
            record_views(records@) == set_listing(s).take(i as int).map_values(|c: Seq<char>| name_record(c)),
    {
        let rec = SourceRecord { canonical: listed[i].clone(), aliases: Vec::new(), score: Score::Hundredths(200) };
        let ghost rv = record_views(records@);
        records.push(rec);
        proof {
            assert(views(rec.aliases@) =~= Seq::<Seq<char>>::empty());
            assert(set_listing(s)[i as int] == listed@[i as int]@);
            assert(rec@ == name_record(set_listing(s)[i as int]));
            assert(record_views(records@) =~= rv.push(rec@));
            assert(set_listing(s).take(i + 1).map_values(|c: Seq<char>| name_record(c)) =~= set_listing(s).take(i as int).map_values(|c: Seq<char>| name_record(c)).push(name_record(set_listing(s)[i as int])));
            assert(record_views(records@) =~= set_listing(s).take(i + 1).map_values(|c: Seq<char>| name_record(c)));
        }
    }
    proof {
        assert(set_listing(s).take(listed.len() as int) =~= set_listing(s));
        assert(s.len() > 0);
    }
    Ok(records)
}

pub fn validate(bytes: &[u8]) -> (r: Result<(), String>)
    ensures
        r is Ok <==> cldr_parse(bytes@) is Ok,
        r matches Err(e) ==> cldr_parse(bytes@) == Err::<Seq<RecordModel>, Seq<char>>(e@),
{
    match parse(bytes) {
        Ok(_) => Ok(()),
        Err(e) => Err(e),
    }
}


/// One locale's territory and language names, compactly written, with the
/// locale's key written as `key`.
pub open spec fn sample_compact(key: Seq<u8>) -> Seq<u8> {
    utf8_encode("{\"main\":{"@) + key + utf8_encode(":{\"localeDisplayNames\":{\"languages\":{\"de\":\"Deutsch\",\"fr\":\"Französisch\"},\"territories\":{\"DE\":\"Deutschland\",\"US\":\"Vereinigte Staaten\",\"US-alt-short\":\"USA\",\"ZZ\":\"ZZ\"}}}}}"@)
}

/// Display names for the locale `locale` (German by default), pretty-printed
/// by serde_json; the "ZZ" territory echoes its own code.
pub fn sample(locale: Option<&str>) -> (r: Vec<u8>)
    ensures
        r@ == json_pretty(sample_compact(json_encode(JsonModel::Text(text_or(opt_text(locale), "de"@))))),
{
    let key = json_string(str_or(locale, "de"));
    let mut out: Vec<u8> = Vec::new();
    push_text(&mut out, "{\"main\":{");
    push_bytes(&mut out, key.as_slice());
    push_text(&mut out, ":{\"localeDisplayNames\":{\"languages\":{\"de\":\"Deutsch\",\"fr\":\"Französisch\"},\"territories\":{\"DE\":\"Deutschland\",\"US\":\"Vereinigte Staaten\",\"US-alt-short\":\"USA\",\"ZZ\":\"ZZ\"}}}}}");
    assert(out@ =~= sample_compact(key@));
    pretty_json(out.as_slice())
}

} // verus!
