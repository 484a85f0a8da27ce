//! Natural Earth GeoJSON: world countries and populated places.
//!
//! Both attribute spellings are handled: admin-0 country features use
//! uppercase keys (`NAME`, `NAME_LONG`, `ADMIN`), populated places lowercase
//! ones (`name`, `nameascii`, `namealt`).

use vstd::prelude::*;
use vstd::string::*;
use crate::collections::{StringSet, lemma_finite_set_listing, set_listing, strictly_sorted, views};
use crate::json::{
    JsonModel, JsonNode, array_opt, decode_json, encode_json, find_member,
    find_member_exec, get, get_array, get_member, get_number_text, get_object, item_views,
    json_decode, json_encode, member_str, member_str_exec, member_views, number_text, object_opt,
};
use crate::lexicon::{RecordModel, Score, ScoreModel, SourceRecord, record_model, record_views, aliases_sorted};
use crate::json::{json_pretty, pretty_json};
use crate::text::{chars_of, encode_utf8, str_eq, trim, trim_str, utf8_encode};

verus! {

/// The natural-earth-vector release tag the built-in workflow is pinned to.
pub open spec fn natural_earth_version() -> Seq<char> {
    "v5.1.2"@
}

pub fn natural_earth_version_str() -> (r: &'static str)
    ensures
        r@ == natural_earth_version(),
{
    "v5.1.2"
}

pub open spec fn download_base() -> Seq<char> {
    "https://raw.githubusercontent.com/nvkelso/natural-earth-vector/v5.1.2/geojson"@
}

/// Returns the pinned GeoJSON URLs: world countries at 110m plus populated
/// places (simple attributes) at 10m.
pub fn built_in_download() -> (r: (String, Vec<String>))
    ensures
        r.0@ == download_base(),
        views(r.1@) == seq![
            download_base() + "/ne_110m_admin_0_countries.geojson"@,
            download_base() + "/ne_10m_populated_places_simple.geojson"@,
        ],
{
    let base = String::from_str("https://raw.githubusercontent.com/nvkelso/natural-earth-vector/v5.1.2/geojson");
    let mut countries = base.clone();
    countries.append("/ne_110m_admin_0_countries.geojson");
    let mut places = base.clone();
    places.append("/ne_10m_populated_places_simple.geojson");
    let urls = vec![countries, places];
    assert(views(urls@) =~= seq![
        download_base() + "/ne_110m_admin_0_countries.geojson"@,
        download_base() + "/ne_10m_populated_places_simple.geojson"@,
    ]);
    (base, urls)
}

pub open spec fn not_collection_message() -> Seq<char> {
    "Natural Earth payload is not a GeoJSON FeatureCollection"@
}

/// The features of each download, concatenated; the first download that is
/// not JSON, or has no `features` array, is an error.
pub open spec fn merged_features(downloads: Seq<Seq<u8>>) -> Result<Seq<Seq<u8>>, Seq<char>>
    decreases downloads.len(),
{
    if downloads.len() == 0 {
        Ok(Seq::empty())
    } else {
        match merged_features(downloads.drop_last()) {
            Err(e) => Err(e),
            Ok(fs) => match json_decode(downloads.last()) {
                Err(e) => Err(e),
                Ok(_) => match array_opt(get(downloads.last(), "features"@)) {
                    Some(items) => Ok(fs + items),
                    None => Err(not_collection_message()),
                },
            },
        }
    }
}

/// A FeatureCollection with the given features.
pub open spec fn feature_collection(features: Seq<Seq<u8>>) -> Seq<u8> {
    json_encode(JsonModel::Object(seq![
        ("type"@, json_encode(JsonModel::Text("FeatureCollection"@))),
        ("features"@, json_encode(JsonModel::Array(features))),
    ]))
}

pub open spec fn ne_merge(downloads: Seq<Seq<u8>>) -> Result<Seq<u8>, Seq<char>> {
    match merged_features(downloads) {
        Err(e) => Err(e),
        Ok(fs) => Ok(feature_collection(fs)),
    }
}

/// Merging one more FeatureCollection appends its features, in order, to
/// those merged so far.
pub proof fn lemma_merge_appends_features(downloads: Seq<Seq<u8>>, fs: Seq<Seq<u8>>, more: Seq<u8>, items: Seq<Seq<u8>>)
    requires
        merged_features(downloads) == Ok::<Seq<Seq<u8>>, Seq<char>>(fs),
        json_decode(more) is Ok,
        array_opt(get(more, "features"@)) == Some(items),
    ensures
        merged_features(downloads.push(more)) == Ok::<Seq<Seq<u8>>, Seq<char>>(fs + items),
        ne_merge(downloads.push(more)) == Ok::<Seq<u8>, Seq<char>>(feature_collection(fs + items)),
{
    assert(downloads.push(more).drop_last() =~= downloads);
}

proof fn lemma_merged_error_sticks(d: Seq<Seq<u8>>, i: int, e: Seq<char>)
    requires
        0 <= i <= d.len(),
        merged_features(d.take(i)) == Err::<Seq<Seq<u8>>, Seq<char>>(e),
    ensures
        merged_features(d) == Err::<Seq<Seq<u8>>, Seq<char>>(e),
    decreases d.len() - i,
{
    if i < d.len() {
        assert(d.take(i + 1).drop_last() =~= d.take(i));
        lemma_merged_error_sticks(d, i + 1, e);
    } else {
        assert(d.take(i) =~= d);
    }
}

/// Merges the fetched FeatureCollections into one.
pub fn merge(downloads: Vec<Vec<u8>>) -> (r: Result<Vec<u8>, String>)
    ensures
        match r {
            Ok(v) => ne_merge(item_views(downloads@)) == Ok::<Seq<u8>, Seq<char>>(v@),
            Err(e) => ne_merge(item_views(downloads@)) == Err::<Seq<u8>, Seq<char>>(e@),
        },
{
    let ghost d = item_views(downloads@);
    let mut features: Vec<Vec<u8>> = Vec::new();
    assert(d.take(0) =~= Seq::<Seq<u8>>::empty());
    assert(item_views(features@) =~= Seq::<Seq<u8>>::empty());
    for i in 0..downloads.len()
        invariant
            d == item_views(downloads@),
            merged_features(d.take(i as int)) == Ok::<Seq<Seq<u8>>, Seq<char>>(item_views(features@)),
    {
        proof {
            assert(d.take(i + 1).drop_last() =~= d.take(i as int));
            assert(d.take(i + 1).last() == d[i as int]);
        }
        match decode_json(downloads[i].as_slice()) {
            Ok(_) => {},
            Err(e) => {
                proof {
                    lemma_merged_error_sticks(d, i + 1, e@);
                }
                return Err(e);
            },
        }
        let items = match get_member(downloads[i].as_slice(), "features") {
            Some(b) => get_array(b.as_slice()),
            None => None,
        };
        match items {
            Some(mut items) => {
                let ghost fv = item_views(features@);
                let ghost iv = item_views(items@);
                features.append(&mut items);
                assert(item_views(features@) =~= fv + iv);
            },
            None => {
                proof {
                    lemma_merged_error_sticks(d, i + 1, not_collection_message());
                }
                return Err(String::from_str("Natural Earth payload is not a GeoJSON FeatureCollection"));
            },
        }
    }
    assert(d.take(downloads.len() as int) =~= d);
    let kind = encode_json(&JsonNode::Text(String::from_str("FeatureCollection")));
    let list = encode_json(&JsonNode::Array(features));
    let members = vec![(String::from_str("type"), kind), (String::from_str("features"), list)];
    let node = JsonNode::Object(members);
    proof {
        assert(member_views(members@) =~= seq![
            ("type"@, json_encode(JsonModel::Text("FeatureCollection"@))),
            ("features"@, json_encode(JsonModel::Array(item_views(features@)))),
        ]);
    }
    Ok(encode_json(&node))
}

/// The aliases `keys` give: each text member that is not empty and differs
/// from the name.
pub open spec fn alias_set(props: Seq<(Seq<char>, Seq<u8>)>, name: Seq<char>, keys: Seq<Seq<char>>) -> Set<Seq<char>>
    decreases keys.len(),
{
    if keys.len() == 0 {
        Set::empty()
    } else {
        let prev = alias_set(props, name, keys.drop_last());
        match member_str(props, keys.last()) {
            Some(a) => if a.len() > 0 && a != name {
                prev.insert(a)
            } else {
                prev
            },
            None => prev,
        }
    }
}

/// The record of a feature: a country (`NAME`, score 2.8) or a populated
/// place (`name`, scored by population), unless its name is blank.
pub open spec fn feature_record(feature: Seq<u8>) -> Option<RecordModel> {
    match object_opt(get(feature, "properties"@)) {
        None => None,
        Some(props) => {
            let (canonical, aliases, score) = if member_str(props, "NAME"@) is Some {
                let name = member_str(props, "NAME"@)->0;
                (name, alias_set(props, name, seq!["NAME_LONG"@, "ADMIN"@]), Some(ScoreModel::Hundredths(280)))
            } else if member_str(props, "name"@) is Some {
                let name = member_str(props, "name"@)->0;
                let pop = match find_member(props, "pop_max"@) {
                    Some(b) => number_text(b),
                    None => None,
                };
                (name, alias_set(props, name, seq!["nameascii"@, "namealt"@]), Some(ScoreModel::PopulatedPlace(pop)))
            } else {
                (Seq::empty(), Set::empty(), None)
            };
            match score {
                None => None,
                Some(sc) => if trim(canonical).len() == 0 {
                    None
                } else {
                    Some(record_model(canonical, set_listing(aliases), sc))
                },
            }
        },
    }
}

proof fn lemma_alias_set(props: Seq<(Seq<char>, Seq<u8>)>, name: Seq<char>, keys: Seq<Seq<char>>, k: int, a: Seq<char>)
    requires
        0 <= k < keys.len(),
        member_str(props, keys[k]) == Some(a),
        a.len() > 0,
        a != name,
    ensures
        alias_set(props, name, keys).contains(a),
    decreases keys.len(),
{
    if k < keys.len() - 1 {
        assert(keys.drop_last()[k] == keys[k]);
        lemma_alias_set(props, name, keys.drop_last(), k, a);
    }
}

proof fn lemma_alias_set_finite(props: Seq<(Seq<char>, Seq<u8>)>, name: Seq<char>, keys: Seq<Seq<char>>)
    ensures
        alias_set(props, name, keys).finite(),
    decreases keys.len(),
{
    if keys.len() > 0 {
        lemma_alias_set_finite(props, name, keys.drop_last());
    }
}

/// A country feature (one with a text `NAME`) is named by it and scores 2.8;
/// a populated place (a text `name` and no `NAME`) is named by that and scored
/// by its population. The country's non-empty `NAME_LONG` and `ADMIN`, and the
/// place's non-empty `nameascii` and `namealt`, are aliases where they differ
/// from the name.
pub proof fn lemma_feature_names(feature: Seq<u8>, props: Seq<(Seq<char>, Seq<u8>)>, c: Seq<char>, key: Seq<char>, a: Seq<char>)
    requires
        object_opt(get(feature, "properties"@)) == Some(props),
        trim(c).len() > 0,
        a.len() > 0,
        a != c,
        member_str(props, key) == Some(a),
        (member_str(props, "NAME"@) == Some(c) && (key == "NAME_LONG"@ || key == "ADMIN"@)) || (member_str(
            props,
            "NAME"@,
        ) is None && member_str(props, "name"@) == Some(c) && (key == "nameascii"@ || key == "namealt"@)),
    ensures
        feature_record(feature) matches Some(r) && r.canonical == c && r.aliases.contains(a) && (member_str(
            props,
            "NAME"@,
        ) is Some ==> r.score == ScoreModel::Hundredths(280)) && (member_str(props, "NAME"@) is None ==> r.score
            is PopulatedPlace),
{
    let keys = if member_str(props, "NAME"@) is Some {
        seq!["NAME_LONG"@, "ADMIN"@]
    } else {
        seq!["nameascii"@, "namealt"@]
    };
    let k: int = if key == keys[0] {
        0
    } else {
        1
    };
    lemma_alias_set(props, c, keys, k, a);
    lemma_alias_set_finite(props, c, keys);
    lemma_finite_set_listing(alias_set(props, c, keys));
}

pub open spec fn feature_records(features: Seq<Seq<u8>>) -> Seq<RecordModel>
    decreases features.len(),
{
    if features.len() == 0 {
        Seq::empty()
    } else {
        let prev = feature_records(features.drop_last());
        match feature_record(features.last()) {
            Some(r) => prev.push(r),
            None => prev,
        }
    }
}

pub open spec fn no_records_message() -> Seq<char> {
    "Natural Earth payload did not yield any records"@
}

/// The records of a FeatureCollection payload.
pub open spec fn ne_parse(bytes: Seq<u8>) -> Result<Seq<RecordModel>, Seq<char>> {
    match json_decode(bytes) {
        Err(e) => Err(e),
        Ok(_) => match array_opt(get(bytes, "features"@)) {
            None => Err(not_collection_message()),
            Some(features) => {
                let records = feature_records(features);
                if records.len() == 0 {
                    Err(no_records_message())
                } else {
                    Ok(records)
                }
            },
        },
    }
}

fn alias_from(props: &Vec<(String, Vec<u8>)>, name: &String, key: &str, aliases: &mut StringSet)
    ensures
        final(aliases).set() == match member_str(member_views(props@), key@) {
            Some(a) => if a.len() > 0 && a != name@ {
                old(aliases).set().insert(a)
            } else {
                old(aliases).set()
            },
            None => old(aliases).set(),
        },
{
    match member_str_exec(props, key) {
        Some(a) => {
            if chars_of(a.as_str()).len() > 0 && !str_eq(a.as_str(), name.as_str()) {
                aliases.insert(a);
            }
        },
        None => {},
    }
}

fn feature_record_exec(feature: &Vec<u8>) -> (r: Option<SourceRecord>)
    ensures
        match r {
            Some(rec) => feature_record(feature@) == Some(rec@),
            None => feature_record(feature@) is None,
        },
        r matches Some(rec) ==> strictly_sorted(rec@.aliases),
{
    let props = match get_member(feature.as_slice(), "properties") {
        Some(b) => get_object(b.as_slice()),
        None => None,
    };
    let props = match props {
        Some(p) => p,
        None => return None,
    };
    let ghost pv = member_views(props@);
    let mut aliases = StringSet::new();
    assert(aliases.set() =~= Set::<Seq<char>>::empty());
    let canonical: String;
    let score: Score;
    match member_str_exec(&props, "NAME") {
        Some(name) => {
            alias_from(&props, &name, "NAME_LONG", &mut aliases);
            proof {
                let k1 = seq!["NAME_LONG"@];
                assert(k1.drop_last() =~= Seq::<Seq<char>>::empty());
                assert(k1.last() == "NAME_LONG"@);
    assert(alias_set(pv, name@, Seq::<Seq<char>>::empty()) == Set::<Seq<char>>::empty());
    assert(alias_set(pv, name@, k1) == match member_str(pv, "NAME_LONG"@) {
        Some(a) => if a.len() > 0 && a != name@ { Set::<Seq<char>>::empty().insert(a) } else { Set::<Seq<char>>::empty() },
        None => Set::<Seq<char>>::empty(),
    });
                assert(aliases.set() == alias_set(pv, name@, k1));
            }
            alias_from(&props, &name, "ADMIN", &mut aliases);
            proof {
                let k2 = seq!["NAME_LONG"@, "ADMIN"@];
                assert(k2.drop_last() =~= seq!["NAME_LONG"@]);
                assert(k2.last() == "ADMIN"@);
            }
            proof {
                assert(seq!["NAME_LONG"@, "ADMIN"@].drop_last() =~= seq!["NAME_LONG"@]);
                assert(seq!["NAME_LONG"@].drop_last() =~= Seq::<Seq<char>>::empty());
                assert(aliases.set() == alias_set(pv, name@, seq!["NAME_LONG"@, "ADMIN"@]));
            }
            canonical = name;
            score = Score::Hundredths(280);
        },
        None => match member_str_exec(&props, "name") {
            Some(name) => {
                alias_from(&props, &name, "nameascii", &mut aliases);
                proof {
                    let k1 = seq!["nameascii"@];
                    assert(k1.drop_last() =~= Seq::<Seq<char>>::empty());
                    assert(k1.last() == "nameascii"@);
    assert(alias_set(pv, name@, Seq::<Seq<char>>::empty()) == Set::<Seq<char>>::empty());
    assert(alias_set(pv, name@, k1) == match member_str(pv, "nameascii"@) {
        Some(a) => if a.len() > 0 && a != name@ { Set::<Seq<char>>::empty().insert(a) } else { Set::<Seq<char>>::empty() },
        None => Set::<Seq<char>>::empty(),
    });
                    assert(aliases.set() == alias_set(pv, name@, k1));
                }
                alias_from(&props, &name, "namealt", &mut aliases);
                proof {
                    let k2 = seq!["nameascii"@, "namealt"@];
                    assert(k2.drop_last() =~= seq!["nameascii"@]);
                    assert(k2.last() == "namealt"@);
                }
                proof {
                    assert(seq!["nameascii"@, "namealt"@].drop_last() =~= seq!["nameascii"@]);
                    assert(seq!["nameascii"@].drop_last() =~= Seq::<Seq<char>>::empty());
                    assert(aliases.set() == alias_set(pv, name@, seq!["nameascii"@, "namealt"@]));
                }
                let pop = match find_member_exec(&props, "pop_max") {
                    Some(b) => get_number_text(b.as_slice()),
                    None => None,
                };
                canonical = name;
                score = Score::PopulatedPlace(pop);
            },
            None => return None,
        },
    }
    let trimmed = trim_str(canonical.as_str());
    if chars_of(trimmed.as_str()).len() == 0 {
        return None;
    }
    let listed = aliases.into_listing();
    Some(SourceRecord { canonical, aliases: listed, score })
}

/// Parses a Natural Earth GeoJSON FeatureCollection.
pub fn parse(bytes: &[u8]) -> (r: Result<Vec<SourceRecord>, String>)
    ensures
        match r {
            Ok(records) => ne_parse(bytes@) == Ok::<Seq<RecordModel>, Seq<char>>(record_views(records@)),
            Err(e) => ne_parse(bytes@) == Err::<Seq<RecordModel>, Seq<char>>(e@),
        },
        r matches Ok(records) ==> aliases_sorted(record_views(records@)),
{
    match decode_json(bytes) {
        Ok(_) => {},
        Err(e) => return Err(e),
    }
    let features = match get_member(bytes, "features") {
        Some(b) => get_array(b.as_slice()),
        None => None,
    };
    let features = match features {
        Some(f) => f,
        None => return Err(String::from_str("Natural Earth payload is not a GeoJSON FeatureCollection")),
    };
    let ghost fv = item_views(features@);
    let mut records: Vec<SourceRecord> = Vec::new();
    assert(record_views(records@) =~= feature_records(fv.take(0)));
    for i in 0..features.len()
        invariant
            fv == item_views(features@),
            record_views(records@) == feature_records(fv.take(i as int)),
            aliases_sorted(record_views(records@)),
    {
        proof {
            assert(fv.take(i + 1).drop_last() =~= fv.take(i as int));
            assert(fv.take(i + 1).last() == fv[i as int]);
        }
        match feature_record_exec(&features[i]) {
            Some(rec) => {
                let ghost rv = record_views(records@);
                records.push(rec);
                assert(record_views(records@) =~= rv.push(rec@));
            },
            None => {},
        }
    }
    assert(fv.take(features.len() as int) =~= fv);
    if records.len() == 0 {
        return Err(String::from_str("Natural Earth payload did not yield any records"));
    }
    Ok(records)
}

pub fn validate(bytes: &[u8]) -> (r: Result<(), String>)
    ensures
        r is Ok <==> ne_parse(bytes@) is Ok,
        r matches Err(e) ==> ne_parse(bytes@) == Err::<Seq<RecordModel>, Seq<char>>(e@),
{
    match parse(bytes) {
        Ok(_) => Ok(()),
        Err(e) => Err(e),
    }
}


/// A country and a populated place, compactly written.
pub open spec fn sample_compact() -> Seq<char> {
    "{\"features\":[{\"properties\":{\"ADMIN\":\"Ivory Coast\",\"NAME\":\"Côte d'Ivoire\",\"NAME_LONG\":\"Ivory Coast\",\"POP_EST\":25716544,\"featurecla\":\"Admin-0 country\"},\"type\":\"Feature\"},{\"properties\":{\"featurecla\":\"Populated place\",\"name\":\"São Paulo\",\"nameascii\":\"Sao Paulo\",\"namealt\":null,\"pop_max\":18845000},\"type\":\"Feature\"}],\"type\":\"FeatureCollection\"}"@
}

/// A two-feature collection (one country, one populated place), pretty-printed
/// by serde_json.
pub fn sample(_locale: Option<&str>) -> (r: Vec<u8>)
    ensures
        r@ == json_pretty(utf8_encode(sample_compact())),
{
    let compact = encode_utf8("{\"features\":[{\"properties\":{\"ADMIN\":\"Ivory Coast\",\"NAME\":\"Côte d'Ivoire\",\"NAME_LONG\":\"Ivory Coast\",\"POP_EST\":25716544,\"featurecla\":\"Admin-0 country\"},\"type\":\"Feature\"},{\"properties\":{\"featurecla\":\"Populated place\",\"name\":\"São Paulo\",\"nameascii\":\"Sao Paulo\",\"namealt\":null,\"pop_max\":18845000},\"type\":\"Feature\"}],\"type\":\"FeatureCollection\"}");
    pretty_json(compact.as_slice())
}

} // verus!
