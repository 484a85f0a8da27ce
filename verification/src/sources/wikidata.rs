//! Wikidata entity exports (`Special:EntityData/Q64.json` or a curated
//! `entities` document): one record per entity, named by its label.

use vstd::prelude::*;
use vstd::string::*;
use crate::collections::{StringSet, lemma_finite_set_listing, set_listing, strictly_sorted};
use crate::json::{
    JsonModel, as_array, decode_json, find_member, find_member_exec, get, get_array, get_member,
    get_member_opt, get_object, get_opt, get_str, get_str_opt, json_decode, json_encode,
    json_pretty, json_string, member_views, object_opt, opt_bytes, opt_text, pretty_json, push_bytes,
    push_text, str_opt, str_or, text_or,
};
use crate::lexicon::{RecordModel, Score, ScoreModel, SourceRecord, record_model, record_views, aliases_sorted};
use crate::sources::common::{add_member_texts, lemma_member_texts, lemma_member_texts_finite, make_record, member_texts};
use crate::text::{contains_char, str_eq, utf8_encode};

verus! {

/// The label an entity is named by: the one in `lang`, else English, else
/// German, else the first.
pub open spec fn preferred_label(labels: Seq<(Seq<char>, Seq<u8>)>, lang: Option<Seq<char>>) -> Option<Seq<u8>> {
    let by_lang = match lang {
        Some(l) => find_member(labels, l),
        None => None,
    };
    if by_lang is Some {
        by_lang
    } else if find_member(labels, "en"@) is Some {
        find_member(labels, "en"@)
    } else if find_member(labels, "de"@) is Some {
        find_member(labels, "de"@)
    } else if labels.len() > 0 {
        Some(labels[0].1)
    } else {
        None
    }
}

/// The alias values in one language's alias list (nothing unless it is an array).
pub open spec fn alias_values(v: Option<Seq<u8>>) -> Set<Seq<char>> {
    match v {
        Some(b) => match as_array(b) {
            Some(entries) => member_texts(entries, "value"@),
            None => Set::empty(),
        },
        None => Set::empty(),
    }
}

/// The aliases of every language.
pub open spec fn all_aliases(by_lang: Seq<(Seq<char>, Seq<u8>)>) -> Set<Seq<char>>
    decreases by_lang.len(),
{
    if by_lang.len() == 0 {
        Set::empty()
    } else {
        all_aliases(by_lang.drop_last()).union(alias_values(Some(by_lang.last().1)))
    }
}

/// Label values in language `l` other than the canonical.
pub open spec fn label_aliases(labels: Seq<(Seq<char>, Seq<u8>)>, canonical: Seq<char>, l: Seq<char>) -> Set<Seq<char>>
    decreases labels.len(),
{
    if labels.len() == 0 {
        Set::empty()
    } else {
        let prev = label_aliases(labels.drop_last(), canonical, l);
        let other = labels.last().1;
        match str_opt(get(other, "value"@)) {
            Some(v) => if v != canonical && str_opt(get(other, "language"@)) == Some(l) {
                prev.insert(v)
            } else {
                prev
            },
            None => prev,
        }
    }
}

/// An entity's aliases: those of `lang` (of every language when none is
/// given), plus its other labels in `lang`.
pub open spec fn entity_aliases(
    entity: Seq<u8>,
    labels: Seq<(Seq<char>, Seq<u8>)>,
    canonical: Seq<char>,
    lang: Option<Seq<char>>,
) -> Set<Seq<char>> {
    let from_aliases = match object_opt(get(entity, "aliases"@)) {
        Some(by_lang) => match lang {
            Some(l) => alias_values(find_member(by_lang, l)),
            None => all_aliases(by_lang),
        },
        None => Set::empty(),
    };
    let from_labels = match lang {
        Some(l) => label_aliases(labels, canonical, l),
        None => Set::empty(),
    };
    from_aliases.union(from_labels)
}

/// 1.5 for a name of several words, else 1.0.
pub open spec fn entity_score(canonical: Seq<char>) -> nat {
    if canonical.contains(' ') {
        150
    } else {
        100
    }
}

pub open spec fn entity_record(entity: Seq<u8>, lang: Option<Seq<char>>) -> Option<RecordModel> {
    match object_opt(get(entity, "labels"@)) {
        None => None,
        Some(labels) => match str_opt(get_opt(preferred_label(labels, lang), "value"@)) {
            None => None,
            Some(c) => Some(
                record_model(
                    c,
                    set_listing(entity_aliases(entity, labels, c, lang)),
                    ScoreModel::Hundredths(entity_score(c)),
                ),
            ),
        },
    }
}

pub open spec fn entity_records(entities: Seq<(Seq<char>, Seq<u8>)>, lang: Option<Seq<char>>) -> Seq<RecordModel>
    decreases entities.len(),
{
    if entities.len() == 0 {
        Seq::empty()
    } else {
        let prev = entity_records(entities.drop_last(), lang);
        match entity_record(entities.last().1, lang) {
            Some(r) => prev.push(r),
            None => prev,
        }
    }
}

/// An entity is named by its label in the requested language, where it has
/// one; else by its English label, else by its German one.
pub proof fn lemma_label_language_preference(entity: Seq<u8>, labels: Seq<(Seq<char>, Seq<u8>)>, lang: Option<Seq<char>>, key: Seq<char>, c: Seq<char>)
    requires
        object_opt(get(entity, "labels"@)) == Some(labels),
        find_member(labels, key) matches Some(b) && str_opt(get(b, "value"@)) == Some(c),
        (lang == Some(key)) || (key == "en"@ && (lang matches Some(l) ==> find_member(labels, l) is None))
            || (key == "de"@ && find_member(labels, "en"@) is None && (lang matches Some(l) ==> find_member(labels, l) is None)),
    ensures
        entity_record(entity, lang) matches Some(r) && r.canonical == c,
{
}

proof fn lemma_label_aliases_finite(labels: Seq<(Seq<char>, Seq<u8>)>, canonical: Seq<char>, l: Seq<char>)
    ensures
        label_aliases(labels, canonical, l).finite(),
    decreases labels.len(),
{
    if labels.len() > 0 {
        lemma_label_aliases_finite(labels.drop_last(), canonical, l);
    }
}

/// With a language, every alias value listed for that language is one of
/// the entity's aliases.
pub proof fn lemma_language_aliases_kept(
    entity: Seq<u8>,
    l: Seq<char>,
    by_lang: Seq<(Seq<char>, Seq<u8>)>,
    entries: Seq<Seq<u8>>,
    i: int,
    a: Seq<char>,
)
    requires
        entity_record(entity, Some(l)) is Some,
        object_opt(get(entity, "aliases"@)) == Some(by_lang),
        find_member(by_lang, l) matches Some(b) && as_array(b) == Some(entries),
        0 <= i < entries.len(),
        str_opt(get(entries[i], "value"@)) == Some(a),
    ensures
        entity_record(entity, Some(l)) matches Some(r) && r.aliases.contains(a),
{
    let labels = object_opt(get(entity, "labels"@))->0;
    let r = entity_record(entity, Some(l))->0;
    lemma_member_texts(entries, "value"@, i, a);
    lemma_member_texts_finite(entries, "value"@);
    lemma_label_aliases_finite(labels, r.canonical, l);
    lemma_finite_set_listing(entity_aliases(entity, labels, r.canonical, Some(l)));
}

proof fn lemma_entity_records_cover(entities: Seq<(Seq<char>, Seq<u8>)>, lang: Option<Seq<char>>, i: int, r: RecordModel)
    requires
        0 <= i < entities.len(),
        entity_record(entities[i].1, lang) == Some(r),
    ensures
        entity_records(entities, lang).contains(r),
    decreases entities.len(),
{
    let prev = entities.drop_last();
    if i < entities.len() - 1 {
        assert(prev[i] == entities[i]);
        lemma_entity_records_cover(prev, lang, i, r);
        let k = choose|k: int| 0 <= k < entity_records(prev, lang).len() && entity_records(prev, lang)[k] == r;
        if let Some(x) = entity_record(entities.last().1, lang) {
            assert(entity_records(prev, lang).push(x)[k] == r);
        }
    } else {
        assert(entity_records(prev, lang).push(r)[entity_records(prev, lang).len() as int] == r);
    }
}

/// Every entity of the export that has a usable label is among the records.
pub proof fn lemma_entities_are_parsed(
    bytes: Seq<u8>,
    lang: Option<Seq<char>>,
    entities: Seq<(Seq<char>, Seq<u8>)>,
    i: int,
    r: RecordModel,
)
    requires
        json_decode(bytes) is Ok,
        object_opt(get(bytes, "entities"@)) == Some(entities),
        0 <= i < entities.len(),
        entity_record(entities[i].1, lang) == Some(r),
    ensures
        wikidata_parse(bytes, lang) matches Ok(rs) && rs.contains(r),
{
    lemma_entity_records_cover(entities, lang, i, r);
}

pub open spec fn missing_entities_message() -> Seq<char> {
    "Wikidata payload is missing an entities object"@
}

pub open spec fn no_entities_message() -> Seq<char> {
    "Wikidata payload did not yield any entities"@
}

/// The records of an entity export: one per entity with a usable label, in
/// entity-id order.
pub open spec fn wikidata_parse(bytes: Seq<u8>, lang: Option<Seq<char>>) -> Result<Seq<RecordModel>, Seq<char>> {
    match json_decode(bytes) {
        Err(e) => Err(e),
        Ok(_) => match object_opt(get(bytes, "entities"@)) {
            None => Err(missing_entities_message()),
            Some(entities) => {
                let rs = entity_records(entities, lang);
                if rs.len() == 0 {
                    Err(no_entities_message())
                } else {
                    Ok(rs)
                }
            },
        },
    }
}

fn preferred_label_exec(labels: &Vec<(String, Vec<u8>)>, lang: Option<&str>) -> (r: Option<Vec<u8>>)
    ensures
        opt_bytes(r) == preferred_label(member_views(labels@), opt_text(lang)),
{
    let by_lang = match lang {
        Some(l) => find_member_exec(labels, l),
        None => None,
    };
    if by_lang.is_some() {
        return by_lang;
    }
    let en = find_member_exec(labels, "en");
    if en.is_some() {
        return en;
    }
    let de = find_member_exec(labels, "de");
    if de.is_some() {
        return de;
    }
    if labels.len() > 0 {
        Some(labels[0].1.clone())
    } else {
        None
    }
}

fn add_alias_values(v: &Option<Vec<u8>>, set: &mut StringSet)
    ensures
        final(set).set() == old(set).set().union(alias_values(opt_bytes(*v))),
{
    let entries = match v {
        Some(b) => get_array(b.as_slice()),
        None => None,
    };
    match entries {
        Some(es) => add_member_texts(&es, "value", set),
        None => {
            assert(set.set().union(Set::<Seq<char>>::empty()) =~= set.set());
        },
    }
}

fn add_all_aliases(by_lang: &Vec<(String, Vec<u8>)>, set: &mut StringSet)
    ensures
        final(set).set() == old(set).set().union(all_aliases(member_views(by_lang@))),
{
    let ghost mv = member_views(by_lang@);
    let ghost start = set.set();
    assert(start.union(all_aliases(mv.take(0))) =~= start);
    for i in 0..by_lang.len()
        invariant
            mv == member_views(by_lang@),
            set.set() == start.union(all_aliases(mv.take(i as int))),
    {
        proof {
            assert(mv.take(i + 1).drop_last() =~= mv.take(i as int));
            assert(mv.take(i + 1).last() == mv[i as int]);
        }
        let item = Some(by_lang[i].1.clone());
        add_alias_values(&item, set);
        assert(set.set() =~= start.union(all_aliases(mv.take(i + 1))));
    }
    assert(mv.take(by_lang.len() as int) =~= mv);
}

fn add_label_aliases(labels: &Vec<(String, Vec<u8>)>, canonical: &str, l: &str, set: &mut StringSet)
    ensures
        final(set).set() == old(set).set().union(label_aliases(member_views(labels@), canonical@, l@)),
{
    let ghost mv = member_views(labels@);
    let ghost start = set.set();
    assert(start.union(label_aliases(mv.take(0), canonical@, l@)) =~= start);
    for i in 0..labels.len()
        invariant
            mv == member_views(labels@),
            set.set() == start.union(label_aliases(mv.take(i as int), canonical@, l@)),
    {
        proof {
            assert(mv.take(i + 1).drop_last() =~= mv.take(i as int));
            assert(mv.take(i + 1).last() == mv[i as int]);
        }
        let other = &labels[i].1;
        let value = match get_member(other.as_slice(), "value") {
            Some(b) => get_str(b.as_slice()),
            None => None,
        };
        match value {
            Some(v) => {
                let language = match get_member(other.as_slice(), "language") {
                    Some(b) => get_str(b.as_slice()),
                    None => None,
                };
                let same_lang = match &language {
                    Some(x) => str_eq(x.as_str(), l),
                    None => false,
                };
                if !str_eq(v.as_str(), canonical) && same_lang {
                    set.insert(v);
                }
            },
            None => {},
        }
        assert(set.set() =~= start.union(label_aliases(mv.take(i + 1), canonical@, l@)));
    }
    assert(mv.take(labels.len() as int) =~= mv);
}

fn entity_record_exec(entity: &Vec<u8>, lang: Option<&str>) -> (r: Option<SourceRecord>)
    ensures
        match r {
            Some(rec) => entity_record(entity@, opt_text(lang)) == Some(rec@),
            None => entity_record(entity@, opt_text(lang)) is None,
        },
        r matches Some(rec) ==> strictly_sorted(rec@.aliases),
{
    let labels = match get_member(entity.as_slice(), "labels") {
        Some(b) => get_object(b.as_slice()),
        None => None,
    };
    let labels = match labels {
        Some(ls) => ls,
        None => return None,
    };
    let ghost lv = member_views(labels@);
    let label = preferred_label_exec(&labels, lang);
    let canonical = match get_str_opt(&get_member_opt(&label, "value")) {
        Some(c) => c,
        None => return None,
    };
    let mut aliases = StringSet::new();
    assert(aliases.set() =~= Set::<Seq<char>>::empty());
    let by_lang = match get_member(entity.as_slice(), "aliases") {
        Some(b) => get_object(b.as_slice()),
        None => None,
    };
    match by_lang {
        Some(bl) => match lang {
            Some(l) => {
                let values = find_member_exec(&bl, l);
                add_alias_values(&values, &mut aliases);
            },
            None => add_all_aliases(&bl, &mut aliases),
        },
        None => {},
    }
    let ghost from_aliases = aliases.set();
    match lang {
        Some(l) => add_label_aliases(&labels, canonical.as_str(), l, &mut aliases),
        None => {
            assert(from_aliases.union(Set::<Seq<char>>::empty()) =~= from_aliases);
        },
    }
    assert(aliases.set() =~= entity_aliases(entity@, lv, canonical@, opt_text(lang)));
    let score: u32 = if contains_char(canonical.as_str(), ' ') {
        150
    } else {
        100
    };
    Some(make_record(canonical, aliases, Score::Hundredths(score)))
}

/// Parses a Wikidata entity export; `lang` picks the label and aliases.
pub fn parse(bytes: &[u8], lang: Option<&str>) -> (r: Result<Vec<SourceRecord>, String>)
    ensures
        match r {
            Ok(records) => wikidata_parse(bytes@, opt_text(lang)) == Ok::<Seq<RecordModel>, Seq<char>>(record_views(records@)),
            Err(e) => wikidata_parse(bytes@, opt_text(lang)) == Err::<Seq<RecordModel>, Seq<char>>(e@),
        },
        r matches Ok(records) ==> aliases_sorted(record_views(records@)),
{
    match decode_json(bytes) {
        Ok(_) => {},
        Err(e) => return Err(e),
    }
    let entities = match get_member(bytes, "entities") {
        Some(b) => get_object(b.as_slice()),
        None => None,
    };
    let entities = match entities {
        Some(es) => es,
        None => return Err(String::from_str("Wikidata payload is missing an entities object")),
    };
    let ghost ev = member_views(entities@);
    let mut records: Vec<SourceRecord> = Vec::new();
    assert(record_views(records@) =~= entity_records(ev.take(0), opt_text(lang)));
    for i in 0..entities.len()
        invariant
            ev == member_views(entities@),
            record_views(records@) == entity_records(ev.take(i as int), opt_text(lang)),
            aliases_sorted(record_views(records@)),
    {
        proof {
            assert(ev.take(i + 1).drop_last() =~= ev.take(i as int));
            assert(ev.take(i + 1).last() == ev[i as int]);
        }
        match entity_record_exec(&entities[i].1, lang) {
            Some(rec) => {
                let ghost rv = record_views(records@);
                records.push(rec);
                assert(record_views(records@) =~= rv.push(rec@));
            },
            None => {},
        }
    }
    assert(ev.take(entities.len() as int) =~= ev);
    if records.len() == 0 {
        return Err(String::from_str("Wikidata payload did not yield any entities"));
    }
    Ok(records)
}

/// Two entities (Berlin and New York City) with labels and aliases in the
/// language written as `code`, compactly written.
pub open spec fn sample_compact(code: Seq<u8>) -> Seq<u8> {
    utf8_encode("{\"entities\":{\"Q64\":{\"id\":\"Q64\",\"labels\":{"@) + code
        + utf8_encode(":{\"language\":"@) + code
        + utf8_encode(",\"value\":\"Berlin\"},\"de\":{\"language\":\"de\",\"value\":\"Berlin\"}},\"aliases\":{"@) + code
        + utf8_encode(":[{\"language\":"@) + code
        + utf8_encode(",\"value\":\"berlin\"},{\"language\":"@) + code
        + utf8_encode(",\"value\":\"Berlin City\"}]}},\"Q60\":{\"id\":\"Q60\",\"labels\":{"@) + code
        + utf8_encode(":{\"language\":"@) + code
        + utf8_encode(",\"value\":\"New York City\"}},\"aliases\":{"@) + code
        + utf8_encode(":[{\"language\":"@) + code
        + utf8_encode(",\"value\":\"New York\"},{\"language\":"@) + code
        + utf8_encode(",\"value\":\"NYC\"}]}}}}"@)
}

/// An entity export in the language `locale` (English by default),
/// pretty-printed by serde_json.
pub fn sample(locale: Option<&str>) -> (r: Vec<u8>)
    ensures
        r@ == json_pretty(sample_compact(json_encode(JsonModel::Text(text_or(opt_text(locale), "en"@))))),
{
    let code = json_string(str_or(locale, "en"));
    let c = code.as_slice();
    let mut out: Vec<u8> = Vec::new();
    push_text(&mut out, "{\"entities\":{\"Q64\":{\"id\":\"Q64\",\"labels\":{");
    push_bytes(&mut out, c);
    push_text(&mut out, ":{\"language\":");
    push_bytes(&mut out, c);
    push_text(&mut out, ",\"value\":\"Berlin\"},\"de\":{\"language\":\"de\",\"value\":\"Berlin\"}},\"aliases\":{");
    push_bytes(&mut out, c);
    push_text(&mut out, ":[{\"language\":");
    push_bytes(&mut out, c);
    push_text(&mut out, ",\"value\":\"berlin\"},{\"language\":");
    push_bytes(&mut out, c);
    push_text(&mut out, ",\"value\":\"Berlin City\"}]}},\"Q60\":{\"id\":\"Q60\",\"labels\":{");
    push_bytes(&mut out, c);
    push_text(&mut out, ":{\"language\":");
    push_bytes(&mut out, c);
    push_text(&mut out, ",\"value\":\"New York City\"}},\"aliases\":{");
    push_bytes(&mut out, c);
    push_text(&mut out, ":[{\"language\":");
    push_bytes(&mut out, c);
    push_text(&mut out, ",\"value\":\"New York\"},{\"language\":");
    push_bytes(&mut out, c);
    push_text(&mut out, ",\"value\":\"NYC\"}]}}}}");
    assert(out@ =~= sample_compact(code@));
    pretty_json(out.as_slice())
}

} // verus!
