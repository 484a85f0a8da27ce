use std::io::Write;

use flate2::Compression;
use flate2::write::GzEncoder;
use textcase_cli::lexicon::{Score, SourceRecord};
use textcase_cli::sources::{
    cldr, dbpedia, discogs, geonames, getty, gleif, gnd, musicbrainz, natural_earth,
    openstreetmap, orcid, ror, ud_german_gsd, wikidata, wiktionary,
};

/// The ranking score as the command line computes it.
fn score_value(score: &Score) -> f32 {
    match score {
        Score::Hundredths(n) => *n as f32 / 100.0,
        Score::PopulatedPlace(pop) => {
            let population = pop.as_deref().and_then(|t| t.parse::<f64>().ok()).unwrap_or(0.0);
            let bonus = if population > 0.0 { (population.log10() / 10.0) as f32 } else { 0.0 };
            2.0 + bonus
        }
        Score::Nominatim { importance, place_rank } => {
            let importance = importance.as_deref().and_then(|t| t.parse::<f64>().ok()).unwrap_or(0.0) as f32;
            let rank = place_rank.as_deref().and_then(|t| t.parse::<u64>().ok()).unwrap_or(0) as f32;
            1.0 + importance + rank / 100.0
        }
        Score::Reported(text) => text.as_deref().and_then(|t| t.parse::<f32>().ok()).unwrap_or(1.0),
    }
}

fn canonicals(records: &[SourceRecord]) -> Vec<&str> {
    records.iter().map(|r| r.canonical.as_str()).collect()
}

fn gzip(bytes: &[u8]) -> Vec<u8> {
    let mut encoder = GzEncoder::new(Vec::new(), Compression::default());
    encoder.write_all(bytes).expect("write");
    encoder.finish().expect("finish")
}

// ---------------------------------------------------------------------------
// CLDR
// ---------------------------------------------------------------------------

#[test]
fn parses_territory_and_language_display_names() {
    let records = cldr::parse(&cldr::sample(Some("de"))).expect("parse sample");
    let names = canonicals(&records);
    assert!(names.contains(&"Deutschland"));
    assert!(names.contains(&"Vereinigte Staaten"));
    assert!(names.contains(&"USA"));
    assert!(names.contains(&"Französisch"));
    // The untranslated placeholder that echoes its code is skipped.
    assert!(!names.contains(&"ZZ"));
}

#[test]
fn merges_multiple_documents() {
    let merged = cldr::merge(vec![cldr::sample(Some("de")), cldr::sample(Some("sv"))]).expect("merge");
    let records = cldr::parse(&merged).expect("parse merged");
    assert!(!records.is_empty());
}

#[test]
fn cldr_names_come_once_each_in_order() {
    let merged = cldr::merge(vec![cldr::sample(Some("de")), cldr::sample(Some("de"))]).expect("merge");
    let records = cldr::parse(&merged).expect("parse merged");
    assert_eq!(
        canonicals(&records),
        vec!["Deutsch", "Deutschland", "Französisch", "USA", "Vereinigte Staaten"]
    );
    assert!(records.iter().all(|r| matches!(r.score, Score::Hundredths(200)) && r.aliases.is_empty()));
}

#[test]
fn cldr_merge_rejects_a_document_that_is_not_json() {
    assert!(cldr::merge(vec![cldr::sample(None), b"not json".to_vec()]).is_err());
    assert_eq!(cldr::merge(Vec::new()).expect("empty merge"), b"[]".to_vec());
}

#[test]
fn cldr_built_in_download_is_pinned() {
    let (base, urls) = cldr::built_in_download("fr");
    assert_eq!(
        base,
        "https://raw.githubusercontent.com/unicode-org/cldr-json/47.0.0/cldr-json/cldr-localenames-full/main/fr"
    );
    assert_eq!(urls, vec![format!("{base}/territories.json"), format!("{base}/languages.json")]);
}

// ---------------------------------------------------------------------------
// DBpedia
// ---------------------------------------------------------------------------

#[test]
fn parses_dbpedia_lookup_json() {
    let records = dbpedia::parse(&dbpedia::sample(Some("en"))).expect("parse sample");
    assert_eq!(records[0].canonical, "Berlin");
    assert!(records[0].aliases.iter().any(|alias| alias == "Berolinum"));
}

#[test]
fn dbpedia_lookup_reports_its_score_text() {
    let records = dbpedia::parse(&dbpedia::sample(None)).expect("parse sample");
    assert_eq!(records[0].aliases, vec!["Berlin City".to_string(), "Berolinum".to_string()]);
    assert!(matches!(&records[0].score, Score::Reported(Some(t)) if t == "45580.38"));
    assert!((score_value(&records[0].score) - 45580.38).abs() < 0.01);
}

#[test]
fn strips_lookup_highlights() {
    assert_eq!(dbpedia::strip_highlight_tags("<B>New</B> <b>York</b>"), "New York");
    assert_eq!(dbpedia::strip_highlight_tags("<<B>B>"), "<B>");
    assert_eq!(dbpedia::strip_highlight_tags("plain"), "plain");
}

#[test]
fn dbpedia_falls_back_to_the_resource_graph() {
    let graph = br#"{"http://dbpedia.org/resource/Paris": {
        "http://www.w3.org/2000/01/rdf-schema#label": [{"value": "Paris"}, {"value": "Lutetia"}],
        "http://dbpedia.org/ontology/alias": [{"value": "City of Light"}]
    }}"#;
    let records = dbpedia::parse(graph).expect("parse graph");
    assert_eq!(records.len(), 1);
    assert_eq!(records[0].canonical, "Lutetia");
    assert_eq!(records[0].aliases, vec!["City of Light".to_string()]);
    assert_eq!(
        dbpedia::parse(b"{}").unwrap_err(),
        "DBpedia payload did not yield any records"
    );
}

// ---------------------------------------------------------------------------
// Discogs
// ---------------------------------------------------------------------------

#[test]
fn parses_artist_dump_entries() {
    let records = discogs::parse(&discogs::sample(None)).expect("parse sample");
    assert_eq!(records.len(), 2);
    assert_eq!(records[0].canonical, "Daft Punk");
    assert!(records[0].aliases.iter().any(|alias| alias == "Daftpunk"));
    assert!(records[0].aliases.iter().any(|alias| alias == "The Third Twin"));
    // Member names belong to their own top-level records.
    assert!(!records[0].aliases.iter().any(|alias| alias == "Thomas Bangalter"));
    // The disambiguation suffix is stripped.
    assert_eq!(records[1].canonical, "Aphex Twin");
    assert!(records[1].aliases.iter().any(|alias| alias == "Richard David James"));
}

#[test]
fn parses_label_dump_entries() {
    let xml = b"<labels>\n  <label><id>1</id><name>Planet E</name></label>\n</labels>";
    let records = discogs::parse(xml).expect("parse labels");
    assert_eq!(records[0].canonical, "Planet E");
}

#[test]
fn parses_gzipped_dumps_without_decompressing_first() {
    let compressed = gzip(&discogs::sample(None));
    // The gzip is streamed straight into the parser, yielding the same
    // records as the plain payload.
    let records = discogs::parse(&compressed).expect("parse gzipped");
    assert_eq!(records.len(), 2);
    assert_eq!(records[0].canonical, "Daft Punk");
}

#[test]
fn discogs_rejects_a_dump_without_records() {
    assert_eq!(
        discogs::parse(b"<artists></artists>").unwrap_err(),
        "Discogs payload did not yield any records"
    );
    assert!(discogs::validate(&discogs::sample(None)).is_ok());
}

#[test]
fn strips_only_numeric_disambiguation() {
    let strip = |s: &str| -> String {
        discogs::strip_disambiguation(&s.chars().collect::<Vec<_>>()).into_iter().collect()
    };
    assert_eq!(strip("Aphex Twin (2)"), "Aphex Twin");
    assert_eq!(strip("Live (Remix)"), "Live (Remix)");
    assert_eq!(strip("Band ()"), "Band ()");
}

// ---------------------------------------------------------------------------
// GeoNames
// ---------------------------------------------------------------------------

#[test]
fn geonames_sample_names_the_country() {
    let text = String::from_utf8(geonames::sample(Some("DE"))).expect("utf8");
    assert!(text.starts_with("name\talt_name\tscore\n"));
    assert!(text.ends_with("Country DE\tcountry DE\t1\n"));
    let default = String::from_utf8(geonames::sample(None)).expect("utf8");
    assert!(default.contains("Country XX"));
}

// ---------------------------------------------------------------------------
// Getty
// ---------------------------------------------------------------------------

#[test]
fn parses_getty_linked_art_json() {
    let records = getty::parse(&getty::sample(Some("en"))).expect("parse sample");
    assert_eq!(records[0].canonical, "Gogh, Vincent van");
    assert!(records[0].aliases.iter().any(|alias| alias == "Vincent van Gogh"));
}

#[test]
fn getty_names_a_record_by_its_first_content_without_a_label() {
    let payload = br#"[{"identified_by": [{"language": "en"}, {"content": "Rembrandt"}, {"content": "Rembrandt van Rijn"}]}, 5]"#;
    let records = getty::parse(payload).expect("parse");
    assert_eq!(records.len(), 1);
    assert_eq!(records[0].canonical, "Rembrandt");
    assert_eq!(records[0].aliases, vec!["Rembrandt van Rijn".to_string()]);
    assert!(matches!(records[0].score, Score::Hundredths(150)));
    assert_eq!(getty::parse(b"3").unwrap_err(), "Getty payload did not yield any records");
}

// ---------------------------------------------------------------------------
// GLEIF
// ---------------------------------------------------------------------------

#[test]
fn parses_lei_records_and_skips_previous_names() {
    let records = gleif::parse(&gleif::sample(None)).expect("parse sample");
    assert_eq!(records.len(), 2);
    assert_eq!(records[0].canonical, "Apple Inc.");
    assert!(records[0].aliases.is_empty());
    assert_eq!(records[1].canonical, "Volkswagen Aktiengesellschaft");
    assert!(records[1].aliases.iter().any(|alias| alias == "Volkswagen AG"));
}

#[test]
fn gleif_passes_plain_xml_through_and_unpacks_gzip() {
    let sample = gleif::sample(None);
    assert_eq!(gleif::extract_payload(&sample).expect("plain"), sample);
    assert_eq!(gleif::extract_payload(&gzip(&sample)).expect("gzip"), sample);
}

#[test]
fn gleif_reports_a_malformed_document() {
    assert!(gleif::parse(b"<lei:LEIRecord><lei:LegalName>A</lei:Other>").is_err());
}

#[test]
fn record_text_that_is_not_utf8_is_reported_as_quick_xml_does() {
    let payload = b"<lei:LEIRecord><lei:LegalName>Caf\xe9</lei:LegalName></lei:LEIRecord>";
    let message = gleif::parse(payload).unwrap_err();
    assert!(message.starts_with("cannot decode input using UTF-8: "), "{message}");
    let entity = b"<lei:LEIRecord><lei:LegalName>Caf&amp;e</lei:LegalName></lei:LEIRecord>";
    assert_eq!(gleif::parse(entity).expect("escaped text")[0].canonical, "Caf&e");
}

// ---------------------------------------------------------------------------
// GND
// ---------------------------------------------------------------------------

#[test]
fn parses_lobid_style_gnd_records() {
    let records = gnd::parse(&gnd::sample(Some("de"))).expect("parse sample");
    assert_eq!(records[0].canonical, "Goethe, Johann Wolfgang von");
    assert!(records[0].aliases.iter().any(|alias| alias == "Johann Wolfgang von Goethe"));
}

#[test]
fn gnd_collects_every_kind_of_variant_name() {
    let records = gnd::parse(&gnd::sample(None)).expect("parse sample");
    assert_eq!(
        records[0].aliases,
        vec![
            "Goethe".to_string(),
            "J. W. von Goethe".to_string(),
            "Johann Wolfgang Goethe".to_string(),
            "Johann Wolfgang von Goethe".to_string(),
        ]
    );
    assert!(matches!(records[0].score, Score::Hundredths(200)));
}

#[test]
fn gnd_builds_a_name_from_its_parts() {
    let payload = br#"{"member": [
        {"preferredNameEntityForThePerson": {"forename": ["Ada"], "surname": ["Lovelace"]}, "type": ["PlaceOrGeographicName"]},
        {"variantName": [["deep", ["deeper"]]], "preferredName": "Nested"}
    ]}"#;
    let records = gnd::parse(payload).expect("parse");
    assert_eq!(records[0].canonical, "Ada Lovelace");
    assert!(matches!(records[0].score, Score::Hundredths(180)));
    assert_eq!(records[1].canonical, "Nested");
    assert_eq!(records[1].aliases, vec!["deep".to_string(), "deeper".to_string()]);
    assert!(matches!(records[1].score, Score::Hundredths(100)));
    assert_eq!(gnd::parse(b"[]").unwrap_err(), "GND payload did not yield any records");
}

// ---------------------------------------------------------------------------
// MusicBrainz
// ---------------------------------------------------------------------------

#[test]
fn parses_musicbrainz_result_sets() {
    let records = musicbrainz::parse(&musicbrainz::sample(Some("en"))).expect("parse sample");
    assert_eq!(records[0].canonical, "Björk");
    assert!(records[0].aliases.iter().any(|alias| alias == "Bjork"));
}

#[test]
fn musicbrainz_scores_mixed_case_names_higher() {
    let records = musicbrainz::parse(&musicbrainz::sample(None)).expect("parse sample");
    assert!(matches!(records[0].score, Score::Hundredths(200)));
    assert!(matches!(records[1].score, Score::Hundredths(200)));
    let entity = br#"{"title": "abba", "disambiguation": "Swedish group", "aliases": [{"name": "ABBA"}]}"#;
    let records = musicbrainz::parse(entity).expect("parse entity");
    assert_eq!(records[0].canonical, "abba");
    assert_eq!(records[0].aliases, vec!["ABBA".to_string(), "Swedish group".to_string()]);
    assert!(matches!(records[0].score, Score::Hundredths(120)));
    assert!(musicbrainz::is_mixed_case_brand("iPhone"));
    assert!(!musicbrainz::is_mixed_case_brand("ABBA"));
}

// ---------------------------------------------------------------------------
// Natural Earth
// ---------------------------------------------------------------------------

#[test]
fn parses_countries_and_populated_places() {
    let records = natural_earth::parse(&natural_earth::sample(None)).expect("parse sample");
    assert_eq!(records.len(), 2);
    assert_eq!(records[0].canonical, "Côte d'Ivoire");
    assert!(records[0].aliases.iter().any(|alias| alias == "Ivory Coast"));
    assert_eq!(records[1].canonical, "São Paulo");
    assert!(records[1].aliases.iter().any(|alias| alias == "Sao Paulo"));
    // A large city outranks the base score but not a country.
    assert!(score_value(&records[1].score) > 2.0);
    assert!(score_value(&records[0].score) > score_value(&records[1].score));
}

#[test]
fn skips_empty_string_aliases() {
    let mut properties = serde_json::Map::new();
    properties.insert("name".to_string(), serde_json::Value::from("Springfield"));
    properties.insert("nameascii".to_string(), serde_json::Value::from(""));
    properties.insert("namealt".to_string(), serde_json::Value::from("Spring City"));
    let mut feature = serde_json::Map::new();
    feature.insert("type".to_string(), serde_json::Value::from("Feature"));
    feature.insert("properties".to_string(), serde_json::Value::Object(properties));
    let mut collection = serde_json::Map::new();
    collection.insert("type".to_string(), serde_json::Value::from("FeatureCollection"));
    collection.insert(
        "features".to_string(),
        serde_json::Value::Array(vec![serde_json::Value::Object(feature)]),
    );
    let payload = serde_json::to_vec(&serde_json::Value::Object(collection)).unwrap();
    let records = natural_earth::parse(&payload).expect("parse");
    assert_eq!(records[0].canonical, "Springfield");
    // The empty nameascii is dropped; the real namealt survives.
    assert_eq!(records[0].aliases, vec!["Spring City".to_string()]);
}

#[test]
fn merges_feature_collections() {
    let merged =
        natural_earth::merge(vec![natural_earth::sample(None), natural_earth::sample(None)]).expect("merge");
    let records = natural_earth::parse(&merged).expect("parse merged");
    assert_eq!(records.len(), 4);
}

#[test]
fn natural_earth_rejects_a_payload_that_is_not_a_collection() {
    assert_eq!(
        natural_earth::parse(b"{\"type\": \"Feature\"}").unwrap_err(),
        "Natural Earth payload is not a GeoJSON FeatureCollection"
    );
    assert_eq!(natural_earth::natural_earth_version_str(), "v5.1.2");
}

// ---------------------------------------------------------------------------
// OpenStreetMap
// ---------------------------------------------------------------------------

#[test]
fn parses_nominatim_style_json() {
    let records = openstreetmap::parse(&openstreetmap::sample(Some("de"))).expect("parse sample");
    assert_eq!(records[0].canonical, "Berlin");
    assert!(records[0].aliases.iter().any(|alias| alias == "Berlin, Deutschland"));
}

#[test]
fn nominatim_score_and_display_name_fallback() {
    let records = openstreetmap::parse(&openstreetmap::sample(None)).expect("parse sample");
    assert!((score_value(&records[0].score) - 1.93).abs() < 1e-4);
    let payload = br#"[{"display_name": "  Hamburg , Deutschland"}, "skipped"]"#;
    let records = openstreetmap::parse(payload).expect("parse");
    assert_eq!(records[0].canonical, "Hamburg");
    assert_eq!(records[0].aliases, vec!["  Hamburg , Deutschland".to_string()]);
    assert_eq!(
        openstreetmap::parse(br#"[{"importance": 1}]"#).unwrap_err(),
        "OpenStreetMap result is missing a name"
    );
    assert_eq!(
        openstreetmap::parse(b"{}").unwrap_err(),
        "OpenStreetMap payload must be a JSON array"
    );
}

// ---------------------------------------------------------------------------
// ORCID
// ---------------------------------------------------------------------------

#[test]
fn parses_orcid_personal_details_xml() {
    let records = orcid::parse(&orcid::sample(Some("en"))).expect("parse sample");
    assert_eq!(records[0].canonical, "Ada Lovelace");
    assert!(records[0].aliases.iter().any(|alias| alias == "Augusta Ada Lovelace"));
}

#[test]
fn parses_orcid_personal_details_json() {
    let payload = br#" {"name": {"given-names": {"value": "Grace"}, "family-name": {"value": "Hopper"}},
        "other-names": {"other-name": [{"content": "Amazing Grace"}, {"content": "Grace Hopper"}]}}"#;
    let records = orcid::parse(payload).expect("parse json");
    assert_eq!(records.len(), 1);
    assert_eq!(records[0].canonical, "Grace Hopper");
    assert_eq!(records[0].aliases, vec!["Amazing Grace".to_string()]);
    assert_eq!(
        orcid::parse(br#"{"name": {"given-names": {"value": "Grace"}}}"#).unwrap_err(),
        "ORCID JSON payload is missing family-name"
    );
    assert_eq!(orcid::parse(b"{}").unwrap_err(), "ORCID JSON payload is missing a name object");
}

#[test]
fn orcid_xml_without_a_public_name_is_refused() {
    assert_eq!(
        orcid::parse(b"<person><given-names>Ada</given-names></person>").unwrap_err(),
        "ORCID payload did not contain a public name"
    );
}

#[test]
fn orcid_local_names_and_tag_scan() {
    assert_eq!(orcid::local_name(b"a:b:content"), b"content".to_vec());
    assert_eq!(orcid::local_name(b"content"), b"content".to_vec());
    let xml = "<a:content x=\"1\"> one </b:content><c:other>x</c:other><d:content></d:content><e:content>two</e:content>";
    assert_eq!(orcid::extract_tag_values(xml, "content"), vec!["one".to_string(), "two".to_string()]);
    assert_eq!(orcid::extract_first_tag_value(xml, "content"), Some("one".to_string()));
    assert_eq!(orcid::extract_first_tag_value(xml, "missing"), None);
    // A scan that finds no closing tag stops.
    assert!(orcid::extract_tag_values("<a:content>open", "content").is_empty());
}

// ---------------------------------------------------------------------------
// ROR
// ---------------------------------------------------------------------------

#[test]
fn parses_v2_and_v1_records_without_acronyms() {
    let records = ror::parse(&ror::sample(None)).expect("parse sample");
    assert_eq!(records.len(), 2);
    assert_eq!(records[0].canonical, "Karolinska Institutet");
    assert!(records[0].aliases.iter().any(|alias| alias == "Karolinska Institute"));
    assert!(!records[0].aliases.iter().any(|alias| alias == "KI"));
    assert_eq!(records[1].canonical, "Harvard University");
    assert!(records[1].aliases.iter().any(|alias| alias == "Université Harvard"));
    assert!(!records[1].aliases.iter().any(|alias| alias == "HU"));
}

#[test]
fn extracts_v2_json_from_zip() {
    let mut writer = zip::ZipWriter::new(std::io::Cursor::new(Vec::new()));
    writer
        .start_file::<_, ()>("v1.63-ror-data.json", zip::write::FileOptions::default())
        .expect("start v1 file");
    writer.write_all(b"[]").expect("write v1");
    writer
        .start_file::<_, ()>("v1.63-ror-data_schema_v2.json", zip::write::FileOptions::default())
        .expect("start v2 file");
    writer.write_all(&ror::sample(None)).expect("write v2");
    let cursor = writer.finish().expect("finish zip");
    let extracted = ror::extract_payload(cursor.get_ref()).expect("extract");
    assert_eq!(extracted, ror::sample(None));
}

#[test]
fn ror_refuses_a_payload_that_is_not_an_array() {
    assert_eq!(
        ror::parse(b"{}").unwrap_err(),
        "ROR payload is not a JSON array of organizations"
    );
    assert_eq!(ror::parse(b"[{}]").unwrap_err(), "ROR payload did not yield any records");
    assert_eq!(ror::extract_payload(b"[1]").expect("plain"), b"[1]".to_vec());
}

// ---------------------------------------------------------------------------
// UD German GSD
// ---------------------------------------------------------------------------

#[test]
fn parses_only_nouns_and_propns() {
    let records = ud_german_gsd::parse(&ud_german_gsd::sample()).expect("parse sample");
    assert_eq!(records.len(), 2);
    assert_eq!(records[0].canonical, "Berlin");
    assert_eq!(records[1].canonical, "Problem");
}

#[test]
fn scores_proper_nouns_above_common_nouns() {
    let records = ud_german_gsd::parse(&ud_german_gsd::sample()).expect("parse sample");
    assert!(score_value(&records[0].score) > score_value(&records[1].score));
}

#[test]
fn ud_scores_and_column_errors() {
    let records = ud_german_gsd::parse(&ud_german_gsd::sample()).expect("parse sample");
    assert!(matches!(records[0].score, Score::Hundredths(380)));
    assert!(matches!(records[1].score, Score::Hundredths(250)));
    assert_eq!(records[1].aliases, vec!["Probleme".to_string(), "Problem".to_string()]);
    assert_eq!(
        ud_german_gsd::parse(b"1\tBerlin\n").unwrap_err(),
        "expected 10 CoNLL-U columns, got 2"
    );
    assert_eq!(
        ud_german_gsd::validate(b"# only a comment\n").unwrap_err(),
        "UD German GSD payload did not yield noun candidates"
    );
}

#[test]
fn capitalizes_noun_lemmas() {
    let cap = |s: &str| -> String {
        ud_german_gsd::capitalize_noun_lemma(&s.chars().collect::<Vec<_>>()).into_iter().collect()
    };
    assert_eq!(cap("problem"), "Problem");
    assert_eq!(cap("ßtraße"), "SStraße");
    assert_eq!(cap(""), "");
}

// ---------------------------------------------------------------------------
// Wikidata
// ---------------------------------------------------------------------------

#[test]
fn parses_wikidata_entity_json() {
    let records = wikidata::parse(&wikidata::sample(Some("en")), Some("en")).expect("parse sample");
    assert!(records.iter().any(|record| record.canonical == "Berlin"));
    assert!(records.iter().any(|record| record.aliases.iter().any(|alias| alias == "NYC")));
}

#[test]
fn wikidata_records_follow_entity_ids() {
    let records = wikidata::parse(&wikidata::sample(None), None).expect("parse sample");
    assert_eq!(canonicals(&records), vec!["New York City", "Berlin"]);
    assert!(matches!(records[0].score, Score::Hundredths(150)));
    assert!(matches!(records[1].score, Score::Hundredths(100)));
    assert_eq!(records[1].aliases, vec!["Berlin City".to_string(), "berlin".to_string()]);
    assert_eq!(
        wikidata::parse(b"{}", None).unwrap_err(),
        "Wikidata payload is missing an entities object"
    );
    assert_eq!(
        wikidata::parse(b"{\"entities\": {}}", None).unwrap_err(),
        "Wikidata payload did not yield any entities"
    );
}

// ---------------------------------------------------------------------------
// Wiktionary
// ---------------------------------------------------------------------------

#[test]
fn parses_jsonl_and_filters_language() {
    let records = wiktionary::parse(&wiktionary::sample(Some("de")), Some("de")).expect("parse sample");
    let forms = canonicals(&records);
    assert!(forms.contains(&"Hallo"));
    assert!(forms.contains(&"Hallos"));
    assert!(forms.contains(&"läuft"));
    assert!(!forms.contains(&"ordo"));
}

#[test]
fn parses_gzipped_jsonl() {
    let bytes = gzip(&wiktionary::sample(Some("de")));
    let records = wiktionary::parse(&bytes, Some("de")).expect("parse sample");
    assert!(records.iter().any(|record| record.canonical == "Hallo"));
}

#[test]
fn wiktionary_scores_by_part_of_speech() {
    let records = wiktionary::parse(&wiktionary::sample(None), Some("DE")).expect("parse sample");
    assert_eq!(canonicals(&records), vec!["Hallo", "Hallos", "laufen", "lief", "läuft"]);
    let score = |form: &str| match records.iter().find(|r| r.canonical == form).map(|r| &r.score) {
        Some(Score::Hundredths(n)) => *n,
        _ => 0,
    };
    assert_eq!(score("Hallo"), 235);
    assert_eq!(score("Hallos"), 220);
    assert_eq!(score("laufen"), 165);
    assert_eq!(score("lief"), 150);
    assert!(wiktionary::validate(&wiktionary::sample(None)).is_ok());
    assert_eq!(
        wiktionary::parse(b"\n\n", None).unwrap_err(),
        "Wiktionary payload did not yield any lexical records"
    );
}

#[test]
fn wiktionary_download_urls() {
    assert_eq!(
        wiktionary::built_in_download("DE").expect("de"),
        (
            "https://kaikki.org/dictionary/downloads/de/de-extract.jsonl.gz".to_string(),
            "kaikki-de".to_string()
        )
    );
    assert!(wiktionary::built_in_download("ja").unwrap_err().contains("does not support --lang ja"));
    assert!(wiktionary::is_usable_surface(" Haus "));
    assert!(!wiktionary::is_usable_surface("--"));
}

fn assert_tidy(records: &[SourceRecord], canonical_excluded: bool) {
    for record in records {
        for pair in record.aliases.windows(2) {
            assert!(pair[0] < pair[1], "aliases of {} out of order", record.canonical);
        }
        if canonical_excluded {
            assert!(!record.aliases.contains(&record.canonical));
        }
    }
}

#[test]
fn parsed_aliases_are_sorted_and_leave_out_the_canonical_form() {
    let musicbrainz_payload = br#"{"artists":[{"name":"Bjork","sort-name":"Bjork","aliases":[{"name":"Zeta"},{"name":"Alpha"},{"name":"Bjork"}]}]}"#;
    let records = musicbrainz::parse(musicbrainz_payload).unwrap();
    assert_eq!(records[0].aliases, vec!["Alpha".to_string(), "Zeta".to_string()]);
    assert_tidy(&records, true);
    assert_tidy(&dbpedia::parse(&dbpedia::sample(None)).unwrap(), true);
    assert_tidy(&gnd::parse(&gnd::sample(None)).unwrap(), true);
    assert_tidy(&getty::parse(&getty::sample(None)).unwrap(), true);
    assert_tidy(&orcid::parse(&orcid::sample(None)).unwrap(), true);
    assert_tidy(&ror::parse(&ror::sample(None)).unwrap(), true);
    assert_tidy(&openstreetmap::parse(&openstreetmap::sample(None)).unwrap(), true);
    assert_tidy(&discogs::parse(&discogs::sample(None)).unwrap(), true);
    assert_tidy(&gleif::parse(&gleif::sample(None)).unwrap(), true);
    assert_tidy(&wikidata::parse(&wikidata::sample(None), None).unwrap(), false);
    assert_tidy(&natural_earth::parse(&natural_earth::sample(None)).unwrap(), false);
}

#[test]
fn wiktionary_validation_reads_no_further_than_it_needs() {
    let mut payload = Vec::new();
    for i in 0..40 {
        payload.extend_from_slice(format!("{{\"word\":\"Wort{i}\",\"pos\":\"noun\",\"lang_code\":\"de\"}}\n").as_bytes());
    }
    payload.extend_from_slice(b"\xff\xfe not text\n");
    assert!(wiktionary::validate(&payload).is_ok());
    assert!(wiktionary::parse(&payload, None).is_err());
    payload.truncate(payload.len() - 12);
    assert_eq!(wiktionary::parse(&payload, None).expect("valid lines").len(), 40);
    assert!(wiktionary::validate(&payload).is_ok());
    assert!(wiktionary::validate(b"").is_err());
    assert_eq!(
        wiktionary::parse(b"", None).unwrap_err(),
        "Wiktionary payload did not yield any lexical records"
    );
}

#[test]
fn geonames_sample_bytes() {
    assert_eq!(
        geonames::sample(Some("DE")),
        b"name\talt_name\tscore\nBerlin\tberlin\t2\nMunich\tmunich\t1.5\nCountry DE\tcountry DE\t1\n".to_vec()
    );
    assert_eq!(
        geonames::sample(None),
        b"name\talt_name\tscore\nBerlin\tberlin\t2\nMunich\tmunich\t1.5\nCountry XX\tcountry XX\t1\n".to_vec()
    );
}

#[test]
fn wiktionary_sample_is_compact_json_lines() {
    let expected = [
        r#"{"forms":[{"form":"Hallos","tags":["plural"]},{"form":"de-ndecl","tags":["inflection-template"]}],"lang_code":"de","pos":"noun","word":"Hallo"}"#,
        r#"{"forms":[{"form":"läuft","tags":["third-person","singular","present"]},{"form":"lief","tags":["past"]}],"lang_code":"de","pos":"verb","word":"laufen"}"#,
        r#"{"forms":[{"form":"ordines","tags":["plural"]}],"lang_code":"la","pos":"noun","word":"ordo"}"#,
    ]
    .join("\n");
    assert_eq!(String::from_utf8(wiktionary::sample(None)).unwrap(), expected);
}
