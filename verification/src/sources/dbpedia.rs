//! DBpedia: Lookup API results (`docs`), or a resource graph keyed by
//! resource and predicate.

use vstd::prelude::*;
use vstd::string::*;
use crate::collections::{StringSet, lemma_finite_set_listing, set_listing};
use crate::json::{
    JsonModel, array_opt, as_array, as_object, as_str, decode_json, get, get_array, get_member,
    get_object, get_str, item_views, json_decode, json_encode, json_pretty, json_string,
    member_views, opt_text, pretty_json, push_bytes, push_text, str_opt, str_or, text_or,
};
use crate::lexicon::{RecordModel, Score, ScoreModel, SourceRecord, record_model, record_views, record_tidy, aliases_tidy};
use crate::sources::common::{add_member_texts, lemma_member_texts, lemma_member_texts_finite, make_record, member_texts};
use crate::text::{lex_lt, chars_of, ends_with, ends_with_str, remove_all, remove_all_chars, string_of, utf8_encode};

verus! {

/// Lookup highlights (`<B>`, `</B>`, `<b>`, `</b>`) removed, in that order.
pub open spec fn strip_highlight(s: Seq<char>) -> Seq<char> {
    remove_all(remove_all(remove_all(remove_all(s, "<B>"@), "</B>"@), "<b>"@), "</b>"@)
}

pub fn strip_highlight_tags(value: &str) -> (r: String)
    ensures
        r@ == strip_highlight(value@),
{
    let cs = chars_of(value);
    let a = remove_all_chars(cs.as_slice(), chars_of("<B>").as_slice());
    let b = remove_all_chars(a.as_slice(), chars_of("</B>").as_slice());
    let c = remove_all_chars(b.as_slice(), chars_of("<b>").as_slice());
    let d = remove_all_chars(c.as_slice(), chars_of("</b>").as_slice());
    string_of(d.as_slice())
}

/// The first item of an array member, where it is a string.
pub open spec fn first_text(v: Option<Seq<u8>>) -> Option<Seq<char>> {
    match array_opt(v) {
        Some(items) => if items.len() > 0 {
            as_str(items[0])
        } else {
            None
        },
        None => None,
    }
}

/// The strings among items, highlights removed.
pub open spec fn stripped_texts(items: Seq<Seq<u8>>) -> Set<Seq<char>>
    decreases items.len(),
{
    if items.len() == 0 {
        Set::empty()
    } else {
        let prev = stripped_texts(items.drop_last());
        match as_str(items.last()) {
            Some(t) => prev.insert(strip_highlight(t)),
            None => prev,
        }
    }
}

/// A Lookup result: its first label names it, its redirect labels are
/// aliases, and its first reported score ranks it.
pub open spec fn lookup_record(item: Seq<u8>) -> Option<RecordModel> {
    match first_text(get(item, "label"@)) {
        None => None,
        Some(l) => {
            let c = strip_highlight(l);
            let aliases = match array_opt(get(item, "redirectlabel"@)) {
                Some(vs) => stripped_texts(vs),
                None => Set::empty(),
            };
            Some(record_model(c, set_listing(aliases.remove(c)), ScoreModel::Reported(first_text(get(item, "score"@)))))
        },
    }
}

pub open spec fn lookup_records(items: Seq<Seq<u8>>) -> Seq<RecordModel>
    decreases items.len(),
{
    if items.len() == 0 {
        Seq::empty()
    } else {
        let prev = lookup_records(items.drop_last());
        match lookup_record(items.last()) {
            Some(r) => prev.push(r),
            None => prev,
        }
    }
}

proof fn lemma_stripped_texts(items: Seq<Seq<u8>>, j: int, t: Seq<char>)
    requires
        0 <= j < items.len(),
        as_str(items[j]) == Some(t),
    ensures
        stripped_texts(items).contains(strip_highlight(t)),
        stripped_texts(items).finite(),
    decreases items.len(),
{
    if j < items.len() - 1 {
        assert(items.drop_last()[j] == items[j]);
        lemma_stripped_texts(items.drop_last(), j, t);
    } else {
        lemma_stripped_texts_finite(items.drop_last());
    }
}

proof fn lemma_stripped_texts_finite(items: Seq<Seq<u8>>)
    ensures
        stripped_texts(items).finite(),
    decreases items.len(),
{
    if items.len() > 0 {
        lemma_stripped_texts_finite(items.drop_last());
    }
}

/// A Lookup result with a text first `label` makes a record named by that
/// label without its highlight tags; each text `redirectlabel`, without its
/// tags and other than that name, is one of its aliases.
pub proof fn lemma_lookup_result_record(item: Seq<u8>, l: Seq<char>, redirects: Seq<Seq<u8>>, j: int, t: Seq<char>)
    requires
        array_opt(get(item, "label"@)) matches Some(ls) && ls.len() > 0 && as_str(ls[0]) == Some(l),
        array_opt(get(item, "redirectlabel"@)) == Some(redirects),
        0 <= j < redirects.len(),
        as_str(redirects[j]) == Some(t),
        strip_highlight(t) != strip_highlight(l),
    ensures
        lookup_record(item) matches Some(r) && r.canonical == strip_highlight(l) && r.aliases.contains(strip_highlight(t)),
{
    lemma_stripped_texts(redirects, j, t);
    lemma_finite_set_listing(stripped_texts(redirects).remove(strip_highlight(l)));
}

proof fn lemma_lookup_records_cover(items: Seq<Seq<u8>>, i: int, r: RecordModel)
    requires
        0 <= i < items.len(),
        lookup_record(items[i]) == Some(r),
    ensures
        lookup_records(items).contains(r),
    decreases items.len(),
{
    let prev = items.drop_last();
    if i < items.len() - 1 {
        assert(prev[i] == items[i]);
        lemma_lookup_records_cover(prev, i, r);
        let k = choose|k: int| 0 <= k < lookup_records(prev).len() && lookup_records(prev)[k] == r;
        if let Some(x) = lookup_record(items.last()) {
            assert(lookup_records(prev).push(x)[k] == r);
        }
    } else {
        assert(lookup_records(prev).push(r)[lookup_records(prev).len() as int] == r);
    }
}

/// Every Lookup result that makes a record is among the parsed records.
pub proof fn lemma_lookup_results_are_parsed(bytes: Seq<u8>, items: Seq<Seq<u8>>, i: int, r: RecordModel)
    requires
        json_decode(bytes) is Ok,
        array_opt(get(bytes, "docs"@)) == Some(items),
        0 <= i < items.len(),
        lookup_record(items[i]) == Some(r),
    ensures
        dbpedia_parse(bytes) matches Ok(rs) && rs.contains(r),
{
    lemma_lookup_records_cover(items, i, r);
}

pub open spec fn lookup_results(bytes: Seq<u8>) -> Seq<RecordModel> {
    match array_opt(get(bytes, "docs"@)) {
        Some(items) => lookup_records(items),
        None => Seq::empty(),
    }
}

pub open spec fn label_predicate(p: Seq<char>) -> bool {
    ends_with(p, "label"@) || ends_with(p, "name"@)
}

pub open spec fn alias_predicate(p: Seq<char>) -> bool {
    ends_with(p, "alias"@) || ends_with(p, "redirectlabel"@)
}

/// The values of the predicates that name a resource.
pub open spec fn graph_labels(preds: Seq<(Seq<char>, Seq<u8>)>) -> Set<Seq<char>>
    decreases preds.len(),
{
    if preds.len() == 0 {
        Set::empty()
    } else {
        let prev = graph_labels(preds.drop_last());
        let (p, vals) = preds.last();
        match as_array(vals) {
            Some(vs) => if label_predicate(p) {
                prev.union(member_texts(vs, "value"@))
            } else {
                prev
            },
            None => prev,
        }
    }
}

/// The values of the alias predicates (that do not also name it).
pub open spec fn graph_aliases(preds: Seq<(Seq<char>, Seq<u8>)>) -> Set<Seq<char>>
    decreases preds.len(),
{
    if preds.len() == 0 {
        Set::empty()
    } else {
        let prev = graph_aliases(preds.drop_last());
        let (p, vals) = preds.last();
        match as_array(vals) {
            Some(vs) => if !label_predicate(p) && alias_predicate(p) {
                prev.union(member_texts(vs, "value"@))
            } else {
                prev
            },
            None => prev,
        }
    }
}

/// A resource of the graph, named by its least label.
pub open spec fn resource_record(preds: Seq<u8>) -> Option<RecordModel> {
    match as_object(preds) {
        None => None,
        Some(ps) => {
            let labels = set_listing(graph_labels(ps));
            if labels.len() == 0 {
                None
            } else {
                let c = labels[0];
                Some(record_model(c, set_listing(graph_aliases(ps).remove(c)), ScoreModel::Hundredths(100)))
            }
        },
    }
}

proof fn lemma_graph_sets(ps: Seq<(Seq<char>, Seq<u8>)>, k: int, vs: Seq<Seq<u8>>, j: int, t: Seq<char>)
    ensures
        graph_labels(ps).finite(),
        graph_aliases(ps).finite(),
        0 <= k < ps.len() && as_array(ps[k].1) == Some(vs) && 0 <= j < vs.len() && str_opt(get(vs[j], "value"@))
            == Some(t) ==> (label_predicate(ps[k].0) ==> graph_labels(ps).contains(t)) && (!label_predicate(ps[k].0)
            && alias_predicate(ps[k].0) ==> graph_aliases(ps).contains(t)),
    decreases ps.len(),
{
    if ps.len() > 0 {
        let prev = ps.drop_last();
        lemma_graph_sets(prev, k, vs, j, t);
        if let Some(items) = as_array(ps.last().1) {
            lemma_member_texts_finite(items, "value"@);
        }
        if 0 <= k < ps.len() && as_array(ps[k].1) == Some(vs) && 0 <= j < vs.len() && str_opt(get(vs[j], "value"@))
            == Some(t) {
            if k < ps.len() - 1 {
                assert(prev[k] == ps[k]);
            } else {
                lemma_member_texts(vs, "value"@, j, t);
            }
        }
    }
}

/// A resource of a graph is named by the least of the `value`s of its label
/// predicates (those ending in "label" or "name"); every value of its other
/// alias predicates (ending in "alias" or "redirectlabel"), other than that
/// name, is an alias.
pub proof fn lemma_resource_names(preds: Seq<u8>, ps: Seq<(Seq<char>, Seq<u8>)>, k: int, vs: Seq<Seq<u8>>, j: int, t: Seq<char>)
    requires
        as_object(preds) == Some(ps),
        0 <= k < ps.len(),
        as_array(ps[k].1) == Some(vs),
        0 <= j < vs.len(),
        str_opt(get(vs[j], "value"@)) == Some(t),
    ensures
        (ends_with(ps[k].0, "label"@) || ends_with(ps[k].0, "name"@)) ==> (resource_record(preds) matches Some(r) && (
        r.canonical == t || lex_lt(r.canonical, t))),
        (!ends_with(ps[k].0, "label"@) && !ends_with(ps[k].0, "name"@) && (ends_with(ps[k].0, "alias"@) || ends_with(
            ps[k].0,
            "redirectlabel"@,
        ))) ==> (resource_record(preds) matches Some(r) ==> (r.canonical == t || r.aliases.contains(t))),
{
    lemma_graph_sets(ps, k, vs, j, t);
    let labels = graph_labels(ps);
    lemma_finite_set_listing(labels);
    let listing = set_listing(labels);
    if labels.contains(t) {
        let q = choose|q: int| 0 <= q < listing.len() && listing[q] == t;
        if q > 0 {
            assert(lex_lt(listing[0], listing[q]));
        }
    }
    if listing.len() > 0 {
        lemma_finite_set_listing(graph_aliases(ps).remove(listing[0]));
    }
}

pub open spec fn resource_records(resources: Seq<(Seq<char>, Seq<u8>)>) -> Seq<RecordModel>
    decreases resources.len(),
{
    if resources.len() == 0 {
        Seq::empty()
    } else {
        let prev = resource_records(resources.drop_last());
        match resource_record(resources.last().1) {
            Some(r) => prev.push(r),
            None => prev,
        }
    }
}

pub open spec fn resource_graph(bytes: Seq<u8>) -> Seq<RecordModel> {
    match as_object(bytes) {
        Some(resources) => resource_records(resources),
        None => Seq::empty(),
    }
}

pub open spec fn no_records_message() -> Seq<char> {
    "DBpedia payload did not yield any records"@
}

/// Lookup results where there are any, else the resource graph's records.
pub open spec fn dbpedia_parse(bytes: Seq<u8>) -> Result<Seq<RecordModel>, Seq<char>> {
    match json_decode(bytes) {
        Err(e) => Err(e),
        Ok(_) => {
            let rs = if lookup_results(bytes).len() > 0 {
                lookup_results(bytes)
            } else {
                resource_graph(bytes)
            };
            if rs.len() == 0 {
                Err(no_records_message())
            } else {
                Ok(rs)
            }
        },
    }
}

fn first_text_exec(v: &Option<Vec<u8>>) -> (r: Option<String>)
    ensures
        match r {
            Some(t) => first_text(crate::json::opt_bytes(*v)) == Some(t@),
            None => first_text(crate::json::opt_bytes(*v)) is None,
        },
{
    let items = match v {
        Some(b) => get_array(b.as_slice()),
        None => None,
    };
    match items {
        Some(items) => if items.len() > 0 {
            get_str(items[0].as_slice())
        } else {
            None
        },
        None => None,
    }
}

fn lookup_record_exec(item: &Vec<u8>) -> (r: Option<SourceRecord>)
    ensures
        match r {
            Some(rec) => lookup_record(item@) == Some(rec@),
            None => lookup_record(item@) is None,
        },
        r matches Some(rec) ==> record_tidy(rec@),
{
    let label = first_text_exec(&get_member(item.as_slice(), "label"));
    let label = match label {
        Some(l) => l,
        None => return None,
    };
    let canonical = strip_highlight_tags(label.as_str());
    let mut aliases = StringSet::new();
    assert(aliases.set() =~= Set::<Seq<char>>::empty());
    let redirects = match get_member(item.as_slice(), "redirectlabel") {
        Some(b) => get_array(b.as_slice()),
        None => None,
    };
    match redirects {
        Some(vs) => {
            let ghost iv = item_views(vs@);
            assert(aliases.set() =~= stripped_texts(iv.take(0)));
            for i in 0..vs.len()
                invariant
                    iv == item_views(vs@),
                    aliases.set() == stripped_texts(iv.take(i as int)),
            {
                proof {
                    assert(iv.take(i + 1).drop_last() =~= iv.take(i as int));
                    assert(iv.take(i + 1).last() == iv[i as int]);
                }
                match get_str(vs[i].as_slice()) {
                    Some(t) => {
                        aliases.insert(strip_highlight_tags(t.as_str()));
                    },
                    None => {},
                }
            }
            assert(iv.take(vs.len() as int) =~= iv);
        },
        None => {},
    }
    aliases.remove(canonical.as_str());
    let score = first_text_exec(&get_member(item.as_slice(), "score"));
    Some(make_record(canonical, aliases, Score::Reported(score)))
}

fn lookup_results_exec(bytes: &[u8]) -> (r: Vec<SourceRecord>)
    ensures
        record_views(r@) == lookup_results(bytes@),
        aliases_tidy(record_views(r@)),
{
    let mut records: Vec<SourceRecord> = Vec::new();
    let items = match get_member(bytes, "docs") {
        Some(b) => get_array(b.as_slice()),
        None => None,
    };
    match items {
        Some(items) => {
            let ghost iv = item_views(items@);
            assert(record_views(records@) =~= lookup_records(iv.take(0)));
            for i in 0..items.len()
                invariant
                    iv == item_views(items@),
                    record_views(records@) == lookup_records(iv.take(i as int)),
                    aliases_tidy(record_views(records@)),
            {
                proof {
                    assert(iv.take(i + 1).drop_last() =~= iv.take(i as int));
                    assert(iv.take(i + 1).last() == iv[i as int]);
                }
                match lookup_record_exec(&items[i]) {
                    Some(rec) => {
                        let ghost rv = record_views(records@);
                        records.push(rec);
                        assert(record_views(records@) =~= rv.push(rec@));
                    },
                    None => {},
                }
            }
            assert(iv.take(items.len() as int) =~= iv);
        },
        None => {
            assert(record_views(records@) =~= Seq::<RecordModel>::empty());
        },
    }
    records
}

fn resource_record_exec(preds: &Vec<u8>) -> (r: Option<SourceRecord>)
    ensures
        match r {
            Some(rec) => resource_record(preds@) == Some(rec@),
            None => resource_record(preds@) is None,
        },
        r matches Some(rec) ==> record_tidy(rec@),
{
    let ps = match get_object(preds.as_slice()) {
        Some(ps) => ps,
        None => return None,
    };
    let ghost pv = member_views(ps@);
    let mut labels = StringSet::new();
    let mut aliases = StringSet::new();
    assert(labels.set() =~= graph_labels(pv.take(0)));
    assert(aliases.set() =~= graph_aliases(pv.take(0)));
    for i in 0..ps.len()
        invariant
            pv == member_views(ps@),
            labels.set() == graph_labels(pv.take(i as int)),
            aliases.set() == graph_aliases(pv.take(i as int)),
    {
        proof {
            assert(pv.take(i + 1).drop_last() =~= pv.take(i as int));
            assert(pv.take(i + 1).last() == pv[i as int]);
        }
        let predicate = ps[i].0.as_str();
        match get_array(ps[i].1.as_slice()) {
            Some(vs) => {
                let is_label = ends_with_str(predicate, "label") || ends_with_str(predicate, "name");
                let is_alias = ends_with_str(predicate, "alias") || ends_with_str(predicate, "redirectlabel");
                if is_label {
                    add_member_texts(&vs, "value", &mut labels);
                } else if is_alias {
                    add_member_texts(&vs, "value", &mut aliases);
                }
            },
            None => {},
        }
    }
    assert(pv.take(ps.len() as int) =~= pv);
    let listed = labels.into_listing();
    if listed.len() == 0 {
        return None;
    }
    let canonical = listed[0].clone();
    aliases.remove(canonical.as_str());
    Some(make_record(canonical, aliases, Score::Hundredths(100)))
}

fn resource_graph_exec(bytes: &[u8]) -> (r: Vec<SourceRecord>)
    ensures
        record_views(r@) == resource_graph(bytes@),
        aliases_tidy(record_views(r@)),
{
    let mut records: Vec<SourceRecord> = Vec::new();
    match get_object(bytes) {
        Some(resources) => {
            let ghost mv = member_views(resources@);
            assert(record_views(records@) =~= resource_records(mv.take(0)));
            for i in 0..resources.len()
                invariant
                    mv == member_views(resources@),
                    record_views(records@) == resource_records(mv.take(i as int)),
                    aliases_tidy(record_views(records@)),
            {
                proof {
                    assert(mv.take(i + 1).drop_last() =~= mv.take(i as int));
                    assert(mv.take(i + 1).last() == mv[i as int]);
                }
                match resource_record_exec(&resources[i].1) {
                    Some(rec) => {
                        let ghost rv = record_views(records@);
                        records.push(rec);
                        assert(record_views(records@) =~= rv.push(rec@));
                    },
                    None => {},
                }
            }
            assert(mv.take(resources.len() as int) =~= mv);
        },
        None => {
            assert(record_views(records@) =~= Seq::<RecordModel>::empty());
        },
    }
    records
}

/// Parses DBpedia Lookup results or a resource graph.
pub fn parse(bytes: &[u8]) -> (r: Result<Vec<SourceRecord>, String>)
    ensures
        match r {
            Ok(records) => dbpedia_parse(bytes@) == Ok::<Seq<RecordModel>, Seq<char>>(record_views(records@)),
            Err(e) => dbpedia_parse(bytes@) == Err::<Seq<RecordModel>, Seq<char>>(e@),
        },
        r matches Ok(records) ==> aliases_tidy(record_views(records@)),
{
    match decode_json(bytes) {
        Ok(_) => {},
        Err(e) => return Err(e),
    }
    let mut records = lookup_results_exec(bytes);
    if records.len() == 0 {
        records = resource_graph_exec(bytes);
    }
    if records.len() == 0 {
        return Err(String::from_str("DBpedia payload did not yield any records"));
    }
    Ok(records)
}

/// One Lookup result for Berlin in the language written as `code`, compactly
/// written.
pub open spec fn sample_compact(code: Seq<u8>) -> Seq<u8> {
    utf8_encode("{\"docs\":[{\"label\":[\"<B>Berlin</B>\"],\"redirectlabel\":[\"Berlin City\",\"Berolinum\"],\"score\":[\"45580.38\"],\"resource\":[\"http://dbpedia.org/resource/Berlin\"],\"language\":["@)
        + code + utf8_encode("]}]}"@)
}

/// A Lookup result (English by default), pretty-printed by serde_json.
pub fn sample(locale: Option<&str>) -> (r: Vec<u8>)
    ensures
        r@ == json_pretty(sample_compact(json_encode(JsonModel::Text(text_or(opt_text(locale), "en"@))))),
{
    let code = json_string(str_or(locale, "en"));
    let mut out: Vec<u8> = Vec::new();
    push_text(&mut out, "{\"docs\":[{\"label\":[\"<B>Berlin</B>\"],\"redirectlabel\":[\"Berlin City\",\"Berolinum\"],\"score\":[\"45580.38\"],\"resource\":[\"http://dbpedia.org/resource/Berlin\"],\"language\":[");
    push_bytes(&mut out, code.as_slice());
    push_text(&mut out, "]}]}");
    assert(out@ =~= sample_compact(code@));
    pretty_json(out.as_slice())
}

} // verus!
