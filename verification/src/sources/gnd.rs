//! GND authority records as lobid.org serves them (one record, a search
//! result with a `member` list, or a bare array of records).

use vstd::prelude::*;
use vstd::string::*;
use crate::collections::{StringSet, lemma_finite_set_listing, set_listing, views};
use crate::json::{
    JsonModel, JsonNode, as_array, as_object, as_str, decode_json, find_member, find_member_exec,
    get_array, get_object, get_str, item_views, json_decode, json_encode, json_pretty, json_string,
    get, member_views, opt_bytes, opt_text, pretty_json, push_bytes, push_text, str_opt, str_or, text_or,
};
use crate::lexicon::{RecordModel, Score, ScoreModel, SourceRecord, record_model, record_views, record_tidy, aliases_tidy};
use crate::sources::common::{
    add_member_texts, contains_text, lemma_member_texts, lemma_member_texts_finite, make_record, member_texts, str_items,
    str_items_exec,
};
use crate::text::{chars_of, join_strings, seq_join, utf8_encode};

verus! {

/// How deep nested arrays of variant names are searched: serde_json refuses
/// documents nested deeper than this.
pub open spec fn nesting_limit() -> nat {
    128
}

/// The strings in a value: the value itself, or those of the items of an
/// array (arrays within arrays too, down to `depth` levels).
pub open spec fn string_values(v: Seq<u8>, depth: nat) -> Set<Seq<char>>
    decreases depth, 0nat,
{
    match as_str(v) {
        Some(s) => Set::empty().insert(s),
        None => match as_array(v) {
            Some(items) => if depth == 0 {
                Set::empty()
            } else {
                items_string_values(items, (depth - 1) as nat)
            },
            None => Set::empty(),
        },
    }
}

pub open spec fn items_string_values(items: Seq<Seq<u8>>, depth: nat) -> Set<Seq<char>>
    decreases depth, items.len(),
{
    if items.len() == 0 {
        Set::empty()
    } else {
        items_string_values(items.drop_last(), depth).union(string_values(items.last(), depth))
    }
}

pub open spec fn opt_string_values(v: Option<Seq<u8>>) -> Set<Seq<char>> {
    match v {
        Some(b) => string_values(b, nesting_limit()),
        None => Set::empty(),
    }
}

/// The texts of a member that holds an array of strings, joined by spaces
/// (empty when the member is missing or not an array).
pub open spec fn joined_member(o: Seq<(Seq<char>, Seq<u8>)>, key: Seq<char>) -> Seq<char> {
    match find_member(o, key) {
        Some(b) => match as_array(b) {
            Some(items) => seq_join(str_items(items), " "@),
            None => Seq::empty(),
        },
        None => Seq::empty(),
    }
}

pub open spec fn nonempty_parts(parts: Seq<Seq<char>>) -> Seq<Seq<char>> {
    parts.filter(|p: Seq<char>| p.len() > 0)
}

/// A name entity: its first personal name, else forenames, prefixes and
/// surnames joined by spaces.
pub open spec fn name_entity(v: Option<Seq<u8>>) -> Option<Seq<char>> {
    match v {
        None => None,
        Some(b) => match as_object(b) {
            None => None,
            Some(o) => {
                let personal = match find_member(o, "personalName"@) {
                    Some(p) => as_array(p),
                    None => None,
                };
                match personal {
                    Some(names) => if str_items(names).len() > 0 {
                        Some(str_items(names)[0])
                    } else {
                        None
                    },
                    None => {
                        let parts = nonempty_parts(
                            seq![
                                joined_member(o, "forename"@),
                                joined_member(o, "prefix"@),
                                joined_member(o, "surname"@),
                            ],
                        );
                        if parts.len() == 0 {
                            None
                        } else {
                            Some(seq_join(parts, " "@))
                        }
                    },
                }
            },
        },
    }
}

pub open spec fn entity_names(items: Seq<Seq<u8>>) -> Set<Seq<char>>
    decreases items.len(),
{
    if items.len() == 0 {
        Set::empty()
    } else {
        let prev = entity_names(items.drop_last());
        match name_entity(Some(items.last())) {
            Some(n) => prev.insert(n),
            None => prev,
        }
    }
}

/// The names of one name entity or of an array of them.
pub open spec fn name_entities(v: Option<Seq<u8>>) -> Set<Seq<char>> {
    match v {
        None => Set::empty(),
        Some(b) => match as_array(b) {
            Some(items) => entity_names(items),
            None => match name_entity(Some(b)) {
                Some(n) => Set::empty().insert(n),
                None => Set::empty(),
            },
        },
    }
}

/// The `@value` texts of an array of language-tagged values.
pub open spec fn language_values(v: Option<Seq<u8>>) -> Set<Seq<char>> {
    match v {
        Some(b) => match as_array(b) {
            Some(items) => member_texts(items, "@value"@),
            None => Set::empty(),
        },
        None => Set::empty(),
    }
}

/// 2.0 for a person, 1.8 for a place, 1.2 for another typed record, 1.0
/// without types.
pub open spec fn type_score(o: Seq<(Seq<char>, Seq<u8>)>) -> nat {
    let types = match find_member(o, "type"@) {
        Some(b) => as_array(b),
        None => None,
    };
    match types {
        Some(ts) => if str_items(ts).contains("Person"@) {
            200
        } else if str_items(ts).contains("PlaceOrGeographicName"@) {
            180
        } else {
            120
        },
        None => 100,
    }
}

pub open spec fn gnd_record(v: Seq<u8>) -> Option<RecordModel> {
    match as_object(v) {
        None => None,
        Some(o) => {
            let preferred = match find_member(o, "preferredName"@) {
                Some(b) => as_str(b),
                None => None,
            };
            let canonical = if preferred is Some {
                preferred
            } else {
                name_entity(find_member(o, "preferredNameEntityForThePerson"@))
            };
            match canonical {
                None => None,
                Some(c) => {
                    let aliases = opt_string_values(find_member(o, "variantName"@)).union(
                        name_entities(find_member(o, "variantNameEntityForThePerson"@)),
                    ).union(language_values(find_member(o, "originalScriptNameOfThePerson"@))).remove(c);
                    Some(record_model(c, set_listing(aliases), ScoreModel::Hundredths(type_score(o))))
                },
            }
        },
    }
}

proof fn lemma_string_values_finite(v: Seq<u8>, depth: nat)
    ensures
        string_values(v, depth).finite(),
    decreases depth, 0nat,
{
    if as_str(v) is None {
        if let Some(items) = as_array(v) {
            if depth > 0 {
                lemma_items_string_values_finite(items, (depth - 1) as nat);
            }
        }
    }
}

proof fn lemma_items_string_values_finite(items: Seq<Seq<u8>>, depth: nat)
    ensures
        items_string_values(items, depth).finite(),
    decreases depth, items.len(),
{
    if items.len() > 0 {
        lemma_items_string_values_finite(items.drop_last(), depth);
        lemma_string_values_finite(items.last(), depth);
    }
}

proof fn lemma_items_string_values_cover(items: Seq<Seq<u8>>, depth: nat, i: int, a: Seq<char>)
    requires
        0 <= i < items.len(),
        as_str(items[i]) == Some(a),
    ensures
        items_string_values(items, depth).contains(a),
    decreases items.len(),
{
    if i < items.len() - 1 {
        assert(items.drop_last()[i] == items[i]);
        lemma_items_string_values_cover(items.drop_last(), depth, i, a);
    } else {
        assert(items.last() == items[i]);
        assert(string_values(items[i], depth) == Set::<Seq<char>>::empty().insert(a));
    }
}

proof fn lemma_entity_names(items: Seq<Seq<u8>>, i: int, a: Seq<char>)
    requires
        0 <= i < items.len(),
        name_entity(Some(items[i])) == Some(a),
    ensures
        entity_names(items).contains(a),
    decreases items.len(),
{
    if i < items.len() - 1 {
        assert(items.drop_last()[i] == items[i]);
        lemma_entity_names(items.drop_last(), i, a);
    }
}

proof fn lemma_entity_names_finite(items: Seq<Seq<u8>>)
    ensures
        entity_names(items).finite(),
    decreases items.len(),
{
    if items.len() > 0 {
        lemma_entity_names_finite(items.drop_last());
    }
}

/// A name entity with no `personalName` list is its forenames, prefixes and
/// surnames, each list joined by spaces, joined by spaces in that order.
pub proof fn lemma_name_parts_joined(b: Seq<u8>, o: Seq<(Seq<char>, Seq<u8>)>)
    requires
        as_object(b) == Some(o),
        (match find_member(o, "personalName"@) {
            Some(p) => as_array(p),
            None => None,
        }) is None,
        joined_member(o, "forename"@).len() > 0,
        joined_member(o, "prefix"@).len() > 0,
        joined_member(o, "surname"@).len() > 0,
    ensures
        name_entity(Some(b)) == Some(
            joined_member(o, "forename"@) + " "@ + joined_member(o, "prefix"@) + " "@ + joined_member(o, "surname"@),
        ),
{
    let parts = seq![joined_member(o, "forename"@), joined_member(o, "prefix"@), joined_member(o, "surname"@)];
    reveal_with_fuel(vstd::seq::Seq::filter, 4);
    assert(nonempty_parts(parts) =~= parts);
    reveal_with_fuel(seq_join, 4);
    assert(parts.drop_last() =~= seq![parts[0], parts[1]]);
    assert(parts.drop_last().drop_last() =~= seq![parts[0]]);
    assert(parts.drop_last().drop_last().drop_last() =~= Seq::<Seq<char>>::empty());
}

/// A record is named by its text `preferredName`; without one, by its
/// `preferredNameEntityForThePerson` (its first personal name, else its
/// forenames, prefixes and surnames joined by spaces).
pub proof fn lemma_record_naming(v: Seq<u8>, o: Seq<(Seq<char>, Seq<u8>)>, c: Seq<char>)
    requires
        as_object(v) == Some(o),
        (match find_member(o, "preferredName"@) {
            Some(p) => as_str(p),
            None => None,
        }) == Some(c) || ((match find_member(o, "preferredName"@) {
            Some(p) => as_str(p),
            None => None,
        }) is None && name_entity(find_member(o, "preferredNameEntityForThePerson"@)) == Some(c)),
    ensures
        gnd_record(v) matches Some(r) && r.canonical == c,
{
}

/// A record with a text `preferredName` is named by it, and every variant name
/// (a `variantName` string or string item, a name entity of
/// `variantNameEntityForThePerson`, an `@value` of
/// `originalScriptNameOfThePerson`) other than that name is one of its aliases.
pub proof fn lemma_variant_names_are_aliases(v: Seq<u8>, o: Seq<(Seq<char>, Seq<u8>)>, c: Seq<char>, a: Seq<char>)
    requires
        as_object(v) == Some(o),
        find_member(o, "preferredName"@) matches Some(p) && as_str(p) == Some(c),
        a != c,
        (find_member(o, "variantName"@) matches Some(b) && (as_str(b) == Some(a) || (as_array(b) matches Some(items)
            && exists|i: int| 0 <= i < items.len() && as_str(#[trigger] items[i]) == Some(a))))
            || (find_member(o, "variantNameEntityForThePerson"@) matches Some(b) && (name_entity(Some(b)) == Some(a)
            && as_array(b) is None || (as_array(b) matches Some(items) && exists|i: int|
            0 <= i < items.len() && name_entity(Some(#[trigger] items[i])) == Some(a))))
            || (find_member(o, "originalScriptNameOfThePerson"@) matches Some(b) && as_array(b) matches Some(items)
            && exists|i: int| 0 <= i < items.len() && str_opt(get(#[trigger] items[i], "@value"@)) == Some(a)),
    ensures
        gnd_record(v) matches Some(r) && r.canonical == c && r.aliases.contains(a),
{
    let variants = opt_string_values(find_member(o, "variantName"@));
    let entities = name_entities(find_member(o, "variantNameEntityForThePerson"@));
    let originals = language_values(find_member(o, "originalScriptNameOfThePerson"@));
    if let Some(b) = find_member(o, "variantName"@) {
        lemma_string_values_finite(b, nesting_limit());
        if let Some(items) = as_array(b) {
            if as_str(b) is None && exists|i: int| 0 <= i < items.len() && as_str(#[trigger] items[i]) == Some(a) {
                let i = choose|i: int| 0 <= i < items.len() && as_str(#[trigger] items[i]) == Some(a);
                lemma_items_string_values_cover(items, (nesting_limit() - 1) as nat, i, a);
            }
        }
    }
    if let Some(b) = find_member(o, "variantNameEntityForThePerson"@) {
        if let Some(items) = as_array(b) {
            lemma_entity_names_finite(items);
            if exists|i: int| 0 <= i < items.len() && name_entity(Some(#[trigger] items[i])) == Some(a) {
                let i = choose|i: int| 0 <= i < items.len() && name_entity(Some(#[trigger] items[i])) == Some(a);
                lemma_entity_names(items, i, a);
            }
        }
    }
    if let Some(b) = find_member(o, "originalScriptNameOfThePerson"@) {
        if let Some(items) = as_array(b) {
            lemma_member_texts_finite(items, "@value"@);
            if exists|i: int| 0 <= i < items.len() && str_opt(get(#[trigger] items[i], "@value"@)) == Some(a) {
                let i = choose|i: int| 0 <= i < items.len() && str_opt(get(#[trigger] items[i], "@value"@)) == Some(a);
                lemma_member_texts(items, "@value"@, i, a);
            }
        }
    }
    let all = variants.union(entities).union(originals).remove(c);
    assert(all.contains(a));
    lemma_finite_set_listing(all);
}

pub open spec fn gnd_records(items: Seq<Seq<u8>>) -> Seq<RecordModel>
    decreases items.len(),
{
    if items.len() == 0 {
        Seq::empty()
    } else {
        let prev = gnd_records(items.drop_last());
        match gnd_record(items.last()) {
            Some(r) => prev.push(r),
            None => prev,
        }
    }
}

/// The records of a payload: those of an array's items, of an object's
/// `member` array, or of the object itself.
pub open spec fn payload_records(bytes: Seq<u8>, m: JsonModel) -> Seq<RecordModel> {
    match m {
        JsonModel::Array(items) => gnd_records(items),
        JsonModel::Object(ms) => {
            let members = match find_member(ms, "member"@) {
                Some(b) => as_array(b),
                None => None,
            };
            match members {
                Some(items) => gnd_records(items),
                None => match gnd_record(bytes) {
                    Some(r) => seq![r],
                    None => Seq::empty(),
                },
            }
        },
        _ => Seq::empty(),
    }
}

pub open spec fn no_records_message() -> Seq<char> {
    "GND payload did not yield any records"@
}

pub open spec fn gnd_parse(bytes: Seq<u8>) -> Result<Seq<RecordModel>, Seq<char>> {
    match json_decode(bytes) {
        Err(e) => Err(e),
        Ok(m) => {
            let rs = payload_records(bytes, m);
            if rs.len() == 0 {
                Err(no_records_message())
            } else {
                Ok(rs)
            }
        },
    }
}

/// An array payload yields the records of its items in order: appending a
/// record object (one without a `member` list) to the array appends the
/// record that parsing that object alone yields.
pub proof fn lemma_array_appends_item_records(
    before: Seq<u8>,
    after: Seq<u8>,
    items: Seq<Seq<u8>>,
    item: Seq<u8>,
    ms: Seq<(Seq<char>, Seq<u8>)>,
    r: RecordModel,
)
    requires
        json_decode(before) == Ok::<JsonModel, Seq<char>>(JsonModel::Array(items)),
        json_decode(after) == Ok::<JsonModel, Seq<char>>(JsonModel::Array(items.push(item))),
        json_decode(item) == Ok::<JsonModel, Seq<char>>(JsonModel::Object(ms)),
        find_member(ms, "member"@) is None,
        gnd_parse(item) == Ok::<Seq<RecordModel>, Seq<char>>(seq![r]),
    ensures
        gnd_parse(after) == Ok::<Seq<RecordModel>, Seq<char>>(
            match gnd_parse(before) {
                Ok(rs) => rs.push(r),
                Err(_) => seq![r],
            },
        ),
{
    assert(payload_records(item, JsonModel::Object(ms)) == seq![r]);
    match gnd_record(item) {
        Some(x) => {
            assert(seq![x][0] == x);
            assert(seq![r][0] == r);
        },
        None => {
            assert(seq![r].len() == 1);
        },
    }
    assert(gnd_record(item) == Some(r));
    assert(items.push(item).drop_last() =~= items);
    assert(items.push(item).last() == item);
    assert(gnd_records(items.push(item)) == gnd_records(items).push(r));
    if gnd_records(items).len() == 0 {
        assert(gnd_records(items).push(r) =~= seq![r]);
    }
}

fn add_string_values(v: &Vec<u8>, depth: usize, set: &mut StringSet)
    ensures
        final(set).set() == old(set).set().union(string_values(v@, depth as nat)),
    decreases depth, 0nat,
{
    match get_str(v.as_slice()) {
        Some(s) => {
            set.insert(s);
            assert(set.set() =~= old(set).set().union(string_values(v@, depth as nat)));
        },
        None => match get_array(v.as_slice()) {
            Some(items) => {
                if depth == 0 {
                    assert(set.set().union(Set::<Seq<char>>::empty()) =~= set.set());
                } else {
                    add_items_string_values(&items, depth - 1, set);
                }
            },
            None => {
                assert(set.set().union(Set::<Seq<char>>::empty()) =~= set.set());
            },
        },
    }
}

fn add_items_string_values(items: &Vec<Vec<u8>>, depth: usize, set: &mut StringSet)
    ensures
        final(set).set() == old(set).set().union(items_string_values(item_views(items@), depth as nat)),
    decreases depth, 1nat,
{
    let ghost iv = item_views(items@);
    let ghost start = set.set();
    assert(start.union(items_string_values(iv.take(0), depth as nat)) =~= start);
    for i in 0..items.len()
        invariant
            iv == item_views(items@),
            set.set() == start.union(items_string_values(iv.take(i as int), depth as nat)),
    {
        proof {
            assert(iv.take(i + 1).drop_last() =~= iv.take(i as int));
            assert(iv.take(i + 1).last() == iv[i as int]);
        }
        add_string_values(&items[i], depth, set);
        assert(set.set() =~= start.union(items_string_values(iv.take(i + 1), depth as nat)));
    }
    assert(iv.take(items.len() as int) =~= iv);
}

fn joined_member_exec(o: &Vec<(String, Vec<u8>)>, key: &str) -> (r: String)
    ensures
        r@ == joined_member(member_views(o@), key@),
{
    let items = match find_member_exec(o, key) {
        Some(b) => get_array(b.as_slice()),
        None => None,
    };
    match items {
        Some(items) => {
            let texts = str_items_exec(&items);
            assert(texts@.map_values(|p: String| p@) =~= views(texts@));
            join_strings(&texts, " ")
        },
        None => String::new(),
    }
}

fn name_entity_exec(v: &Vec<u8>) -> (r: Option<String>)
    ensures
        match r {
            Some(n) => name_entity(Some(v@)) == Some(n@),
            None => name_entity(Some(v@)) is None,
        },
{
    let o = match get_object(v.as_slice()) {
        Some(o) => o,
        None => return None,
    };
    let ghost ov = member_views(o@);
    let personal = match find_member_exec(&o, "personalName") {
        Some(p) => get_array(p.as_slice()),
        None => None,
    };
    match personal {
        Some(names) => {
            let texts = str_items_exec(&names);
            if texts.len() > 0 {
                Some(texts[0].clone())
            } else {
                None
            }
        },
        None => {
            let forename = joined_member_exec(&o, "forename");
            let prefix = joined_member_exec(&o, "prefix");
            let surname = joined_member_exec(&o, "surname");
            let ghost all = seq![forename@, prefix@, surname@];
            let mut parts: Vec<String> = Vec::new();
            let fl = chars_of(forename.as_str()).len();
            let pl = chars_of(prefix.as_str()).len();
            let sl = chars_of(surname.as_str()).len();
            if fl > 0 {
                parts.push(forename);
            }
            if pl > 0 {
                parts.push(prefix);
            }
            if sl > 0 {
                parts.push(surname);
            }
            proof {
                let pv = parts@.map_values(|p: String| p@);
                reveal_with_fuel(vstd::seq::Seq::filter, 4);
                assert(all.drop_last().drop_last().drop_last() =~= Seq::<Seq<char>>::empty());
                assert(all.drop_last().drop_last() =~= seq![all[0]]);
                assert(all.drop_last() =~= seq![all[0], all[1]]);
                assert(pv =~= nonempty_parts(all));
            }
            if parts.len() == 0 {
                None
            } else {
                Some(join_strings(&parts, " "))
            }
        },
    }
}

fn add_name_entities(v: &Option<Vec<u8>>, set: &mut StringSet)
    ensures
        final(set).set() == old(set).set().union(name_entities(opt_bytes(*v))),
{
    let ghost start = set.set();
    match v {
        None => {
            assert(start.union(Set::<Seq<char>>::empty()) =~= start);
        },
        Some(b) => match get_array(b.as_slice()) {
            Some(items) => {
                let ghost iv = item_views(items@);
                assert(start.union(entity_names(iv.take(0))) =~= start);
                for i in 0..items.len()
                    invariant
                        iv == item_views(items@),
                        set.set() == start.union(entity_names(iv.take(i as int))),
                {
                    proof {
                        assert(iv.take(i + 1).drop_last() =~= iv.take(i as int));
                        assert(iv.take(i + 1).last() == iv[i as int]);
                    }
                    match name_entity_exec(&items[i]) {
                        Some(n) => {
                            set.insert(n);
                        },
                        None => {},
                    }
                    assert(set.set() =~= start.union(entity_names(iv.take(i + 1))));
                }
                assert(iv.take(items.len() as int) =~= iv);
            },
            None => {
                match name_entity_exec(b) {
                    Some(n) => {
                        set.insert(n);
                        assert(set.set() =~= start.union(name_entities(opt_bytes(*v))));
                    },
                    None => {
                        assert(start.union(Set::<Seq<char>>::empty()) =~= start);
                    },
                }
            },
        },
    }
}

fn type_score_exec(o: &Vec<(String, Vec<u8>)>) -> (r: u32)
    ensures
        r == type_score(member_views(o@)),
{
    let types = match find_member_exec(o, "type") {
        Some(b) => get_array(b.as_slice()),
        None => None,
    };
    match types {
        Some(ts) => {
            let texts = str_items_exec(&ts);
            if contains_text(&texts, "Person") {
                200
            } else if contains_text(&texts, "PlaceOrGeographicName") {
                180
            } else {
                120
            }
        },
        None => 100,
    }
}

fn gnd_record_exec(v: &Vec<u8>) -> (r: Option<SourceRecord>)
    ensures
        match r {
            Some(rec) => gnd_record(v@) == Some(rec@),
            None => gnd_record(v@) is None,
        },
        r matches Some(rec) ==> record_tidy(rec@),
{
    let o = match get_object(v.as_slice()) {
        Some(o) => o,
        None => return None,
    };
    let ghost ov = member_views(o@);
    let preferred = match find_member_exec(&o, "preferredName") {
        Some(b) => get_str(b.as_slice()),
        None => None,
    };
    let canonical = match preferred {
        Some(c) => c,
        None => {
            let entity = find_member_exec(&o, "preferredNameEntityForThePerson");
            match entity {
                Some(e) => match name_entity_exec(&e) {
                    Some(n) => n,
                    None => return None,
                },
                None => return None,
            }
        },
    };
    let mut aliases = StringSet::new();
    assert(aliases.set() =~= Set::<Seq<char>>::empty());
    match find_member_exec(&o, "variantName") {
        Some(b) => add_string_values(&b, 128, &mut aliases),
        None => {},
    }
    assert(aliases.set() =~= opt_string_values(find_member(ov, "variantName"@)));
    let entities = find_member_exec(&o, "variantNameEntityForThePerson");
    add_name_entities(&entities, &mut aliases);
    let ghost before_lang = aliases.set();
    let tagged = match find_member_exec(&o, "originalScriptNameOfThePerson") {
        Some(b) => get_array(b.as_slice()),
        None => None,
    };
    match tagged {
        Some(items) => add_member_texts(&items, "@value", &mut aliases),
        None => {},
    }
    assert(aliases.set() =~= before_lang.union(language_values(find_member(ov, "originalScriptNameOfThePerson"@))));
    aliases.remove(canonical.as_str());
    let score = type_score_exec(&o);
    Some(make_record(canonical, aliases, Score::Hundredths(score)))
}

fn gnd_records_exec(items: &Vec<Vec<u8>>) -> (r: Vec<SourceRecord>)
    ensures
        record_views(r@) == gnd_records(item_views(items@)),
        aliases_tidy(record_views(r@)),
{
    let ghost iv = item_views(items@);
    let mut records: Vec<SourceRecord> = Vec::new();
    assert(record_views(records@) =~= gnd_records(iv.take(0)));
    for i in 0..items.len()
        invariant
            iv == item_views(items@),
            record_views(records@) == gnd_records(iv.take(i as int)),
            aliases_tidy(record_views(records@)),
    {
        proof {
            assert(iv.take(i + 1).drop_last() =~= iv.take(i as int));
            assert(iv.take(i + 1).last() == iv[i as int]);
        }
        match gnd_record_exec(&items[i]) {
            Some(rec) => {
                let ghost rv = record_views(records@);
                records.push(rec);
                assert(record_views(records@) =~= rv.push(rec@));
            },
            None => {},
        }
    }
    assert(iv.take(items.len() as int) =~= iv);
    records
}

/// Parses GND records from lobid.org JSON.
pub fn parse(bytes: &[u8]) -> (r: Result<Vec<SourceRecord>, String>)
    ensures
        match r {
            Ok(records) => gnd_parse(bytes@) == Ok::<Seq<RecordModel>, Seq<char>>(record_views(records@)),
            Err(e) => gnd_parse(bytes@) == Err::<Seq<RecordModel>, Seq<char>>(e@),
        },
        r matches Ok(records) ==> aliases_tidy(record_views(records@)),
{
    let node = match decode_json(bytes) {
        Ok(n) => n,
        Err(e) => return Err(e),
    };
    let records = match node {
        JsonNode::Array(items) => gnd_records_exec(&items),
        JsonNode::Object(ms) => {
            let members = match find_member_exec(&ms, "member") {
                Some(b) => get_array(b.as_slice()),
                None => None,
            };
            match members {
                Some(items) => gnd_records_exec(&items),
                None => {
                    let whole = crate::json::copy_bytes_vec(bytes);
                    let mut one: Vec<SourceRecord> = Vec::new();
                    match gnd_record_exec(&whole) {
                        Some(rec) => {
                            one.push(rec);
                            assert(record_views(one@) =~= seq![rec@]);
                        },
                        None => {
                            assert(record_views(one@) =~= Seq::<RecordModel>::empty());
                        },
                    }
                    one
                },
            }
        },
        _ => {
            let none: Vec<SourceRecord> = Vec::new();
            assert(record_views(none@) =~= Seq::<RecordModel>::empty());
            none
        },
    };
    if records.len() == 0 {
        return Err(String::from_str("GND payload did not yield any records"));
    }
    Ok(records)
}

/// Goethe's authority record with an original-script name in the language
/// written as `code`, compactly written.
pub open spec fn sample_compact(code: Seq<u8>) -> Seq<u8> {
    utf8_encode("{\"id\":\"https://d-nb.info/gnd/118540238\",\"type\":[\"AuthorityResource\",\"DifferentiatedPerson\",\"Person\"],\"preferredName\":\"Goethe, Johann Wolfgang von\",\"preferredNameEntityForThePerson\":{\"forename\":[\"Johann Wolfgang\"],\"prefix\":[\"von\"],\"surname\":[\"Goethe\"]},\"variantName\":[\"Johann Wolfgang von Goethe\",\"J. W. von Goethe\"],\"variantNameEntityForThePerson\":[{\"forename\":[\"Johann Wolfgang\"],\"surname\":[\"Goethe\"]},{\"personalName\":[\"Goethe\"]}],\"originalScriptNameOfThePerson\":[{\"@language\":"@)
        + code + utf8_encode(",\"@value\":\"Johann Wolfgang von Goethe\"}]}"@)
}

/// One GND person record (German by default), pretty-printed by serde_json.
pub fn sample(locale: Option<&str>) -> (r: Vec<u8>)
    ensures
        r@ == json_pretty(sample_compact(json_encode(JsonModel::Text(text_or(opt_text(locale), "de"@))))),
{
    let code = json_string(str_or(locale, "de"));
    let mut out: Vec<u8> = Vec::new();
    push_text(&mut out, "{\"id\":\"https://d-nb.info/gnd/118540238\",\"type\":[\"AuthorityResource\",\"DifferentiatedPerson\",\"Person\"],\"preferredName\":\"Goethe, Johann Wolfgang von\",\"preferredNameEntityForThePerson\":{\"forename\":[\"Johann Wolfgang\"],\"prefix\":[\"von\"],\"surname\":[\"Goethe\"]},\"variantName\":[\"Johann Wolfgang von Goethe\",\"J. W. von Goethe\"],\"variantNameEntityForThePerson\":[{\"forename\":[\"Johann Wolfgang\"],\"surname\":[\"Goethe\"]},{\"personalName\":[\"Goethe\"]}],\"originalScriptNameOfThePerson\":[{\"@language\":");
    push_bytes(&mut out, code.as_slice());
    push_text(&mut out, ",\"@value\":\"Johann Wolfgang von Goethe\"}]}");
    assert(out@ =~= sample_compact(code@));
    pretty_json(out.as_slice())
}

} // verus!
