use textcase_cli::cli::{FetchArgs, PreparedKindArg};
use textcase_cli::cmd::fetch::{Payload, check_single_part, normalize_and_validate, part_path, resolve_plan, suffix_or};
use textcase_cli::cmd::{list_sources, show_license};
use textcase_cli::lexicon::{PreparedKind, PreparedPayload, Score, SourceRecord};
use textcase_cli::manifest::{FetchedSourceManifest, source_manifest_path};
use textcase_cli::sources::{
    SourceClass, SourceId, build_word_set, built_in_fetch_plan, descriptor, descriptors, fetch_guidance,
    kind_label, normalize_download, prepare_source, require_acknowledgement, requires_normalization,
    sample_payload, suggested_output_name, validate_source_bytes,
};

const ALL: [SourceId; 15] = [
    SourceId::Wikidata,
    SourceId::Geonames,
    SourceId::Discogs,
    SourceId::Gleif,
    SourceId::Ror,
    SourceId::Cldr,
    SourceId::NaturalEarth,
    SourceId::UdGermanGsd,
    SourceId::Gnd,
    SourceId::Orcid,
    SourceId::Musicbrainz,
    SourceId::Getty,
    SourceId::Wiktionary,
    SourceId::Dbpedia,
    SourceId::Openstreetmap,
];

fn fetch_args(source: SourceId) -> FetchArgs {
    FetchArgs {
        source,
        lang: None,
        country: None,
        region: None,
        url: None,
        sample: false,
        output_dir: "data/raw".to_string(),
        acknowledge_cc_by_sa: false,
        acknowledge_share_alike: false,
        acknowledge_odbl: false,
    }
}

#[test]
fn list_sources_includes_classes() {
    let stdout = list_sources::run().expect("list");
    assert!(stdout.contains("wikidata"));
    assert!(stdout.contains("green"));
    assert!(stdout.contains("ud-german-gsd"));
    for source in ["discogs", "gleif", "ror", "cldr", "natural-earth"] {
        assert!(stdout.contains(source), "missing source: {source}");
    }
    assert!(!stdout.contains("omw"));
}

#[test]
fn show_license_reports_acknowledgement_requirements() {
    let stdout = show_license::run(SourceId::UdGermanGsd).expect("show");
    assert!(stdout.contains("--acknowledge-cc-by-sa"));
    assert!(stdout.contains("fetch guidance:"));
}

#[test]
fn orange_source_requires_acknowledgement() {
    let err = require_acknowledgement(SourceId::UdGermanGsd, false, false, false).unwrap_err();
    assert!(err.contains("--acknowledge-cc-by-sa"));
    assert!(require_acknowledgement(SourceId::UdGermanGsd, true, false, false).is_ok());
    assert_eq!(
        require_acknowledgement(SourceId::Openstreetmap, true, true, false).unwrap_err(),
        "missing required --acknowledge-odbl flag"
    );
    assert_eq!(
        require_acknowledgement(SourceId::Wiktionary, true, false, true).unwrap_err(),
        "missing required --acknowledge-share-alike flag"
    );
    assert!(require_acknowledgement(SourceId::Wikidata, false, false, false).is_ok());
}

#[test]
fn unsupported_source_requires_documented_url() {
    let mut args = fetch_args(SourceId::Wikidata);
    args.lang = Some("en".to_string());
    let err = resolve_plan(&args).err().expect("no workflow");
    assert!(err.contains("does not have a built-in fetch workflow"));
    assert!(err.contains("--url"));
}

#[test]
fn catalogue_lists_every_source_once_in_order() {
    let all = descriptors();
    assert_eq!(all.len(), 15);
    for (d, id) in all.iter().zip(ALL.iter()) {
        assert_eq!(d.id, *id);
        assert_eq!(descriptor(*id).display_name, d.display_name);
        assert!(!d.plugin_kinds.is_empty());
    }
    assert_eq!(descriptor(SourceId::Wikidata).class, SourceClass::Green);
    assert_eq!(descriptor(SourceId::Openstreetmap).acknowledgement_flag, Some("--acknowledge-odbl"));
}

#[test]
fn output_names_and_guidance() {
    assert_eq!(suggested_output_name(SourceId::Geonames, "DE"), "geonames-de.tsv");
    assert_eq!(suggested_output_name(SourceId::Wiktionary, "En"), "wiktionary-en.jsonl.gz");
    assert_eq!(suggested_output_name(SourceId::NaturalEarth, "world"), "natural-earth-world.geojson");
    assert_eq!(suggested_output_name(SourceId::Gnd, "sample"), "gnd-sample.json");
    assert!(fetch_guidance(SourceId::Ror).contains("zenodo"));
    for id in ALL {
        assert!(!fetch_guidance(id).is_empty());
    }
    let normalized: Vec<SourceId> = ALL.into_iter().filter(|id| requires_normalization(*id)).collect();
    assert_eq!(
        normalized,
        vec![
            SourceId::Geonames,
            SourceId::Gleif,
            SourceId::Ror,
            SourceId::Cldr,
            SourceId::NaturalEarth,
            SourceId::UdGermanGsd
        ]
    );
}

#[test]
fn built_in_fetch_plans() {
    let plan = built_in_fetch_plan(SourceId::Geonames, None, Some("de"), None).expect("geonames");
    assert_eq!(plan.source_url, "https://download.geonames.org/export/dump/DE.zip");
    assert_eq!(plan.urls, vec![plan.source_url.clone()]);
    assert_eq!(plan.version, "DE");
    assert_eq!(plan.output_suffix, "de");
    let all = built_in_fetch_plan(SourceId::Geonames, None, None, None).expect("all");
    assert_eq!(all.version, "allCountries");
    assert_eq!(all.output_suffix, "allcountries");
    let ud = built_in_fetch_plan(SourceId::UdGermanGsd, None, None, None).expect("ud");
    assert_eq!(ud.urls.len(), 3);
    assert!(ud.urls[2].ends_with("de_gsd-ud-test.conllu"));
    let ne = built_in_fetch_plan(SourceId::NaturalEarth, None, None, None).expect("ne");
    assert_eq!((ne.version.as_str(), ne.output_suffix.as_str()), ("v5.1.2", "world"));
    assert_eq!(
        built_in_fetch_plan(SourceId::Cldr, None, None, None).err(),
        Some("cldr built-in fetch requires --lang".to_string())
    );
    let cldr = built_in_fetch_plan(SourceId::Cldr, Some("DE"), None, None).expect("cldr");
    assert_eq!((cldr.version.as_str(), cldr.output_suffix.as_str()), ("47.0.0", "de"));
    let wikt = built_in_fetch_plan(SourceId::Wiktionary, Some("en"), None, None).expect("wiktionary");
    assert_eq!(wikt.version, "kaikki-en");
    assert_eq!(wikt.urls, vec![wikt.source_url.clone()]);
    assert!(built_in_fetch_plan(SourceId::Wiktionary, Some("xx"), None, None).is_err());
}

#[test]
fn normalizes_downloads() {
    let ud = normalize_download(SourceId::UdGermanGsd, vec![b"a".to_vec(), b"b\n".to_vec(), Vec::new()]).expect("ud");
    assert_eq!(ud, b"a\nb\n".to_vec());
    assert_eq!(
        normalize_download(SourceId::Gnd, Vec::new()).unwrap_err(),
        "download returned no payload"
    );
    assert_eq!(
        normalize_download(SourceId::Gnd, vec![b"x".to_vec(), b"y".to_vec()]).expect("first"),
        b"x".to_vec()
    );
    assert_eq!(
        normalize_download(SourceId::Ror, Vec::new()).unwrap_err(),
        "ROR fetch returned no payload"
    );
    assert_eq!(
        normalize_download(SourceId::Gleif, Vec::new()).unwrap_err(),
        "GLEIF fetch returned no payload"
    );
    assert_eq!(
        normalize_download(SourceId::Geonames, Vec::new()).unwrap_err(),
        "GeoNames fetch returned no payload"
    );
}

#[test]
fn every_sample_validates_except_geonames() {
    for id in ALL {
        let sample = sample_payload(id, None, None, None);
        assert!(!sample.is_empty());
        let outcome = validate_source_bytes(id, &sample);
        if id == SourceId::Geonames {
            assert!(outcome.is_err());
        } else {
            assert!(outcome.is_ok(), "{id:?}: {outcome:?}");
        }
    }
    assert!(validate_source_bytes(SourceId::Gnd, b"not json").is_err());
}

#[test]
fn prepares_lexicons_of_the_kinds_a_source_offers() {
    let sample = sample_payload(SourceId::Wikidata, Some("en"), None, None);
    let lex = prepare_source(SourceId::Wikidata, &sample, PreparedKind::CanonicalMap, Some("en"), None).expect("prepare");
    assert_eq!(lex.name, "wikidata-canonical-map");
    assert_eq!(lex.locale, "en");
    assert_eq!(lex.license.name, "CC0");
    assert_eq!(lex.sources.len(), 1);
    assert_eq!(lex.sources[0].url, "https://docs.invalid/textcase/sources/wikidata");
    assert_eq!(lex.sources[0].version, "user-supplied");
    assert_eq!(lex.sources[0].class, "green");
    assert_eq!(lex.generated_at, "1970-01-01T00:00:00Z");
    match &lex.payload {
        PreparedPayload::CanonicalMap(map) => {
            assert_eq!(map.get("nyc").map(|s| s.as_str()), Some("NYC"));
            assert_eq!(map.get("berlin").map(|s| s.as_str()), Some("Berlin"));
        }
        _ => panic!("expected a canonical map"),
    }
    assert_eq!(
        prepare_source(SourceId::Wikidata, &sample, PreparedKind::WordSet, None, None).err(),
        Some("wikidata does not support WordSet".to_string())
    );
    let provenance = FetchedSourceManifest {
        source: "cldr".to_string(),
        source_url: "https://example.invalid/cldr".to_string(),
        version: "47.0.0".to_string(),
        sample: false,
    };
    let cldr = sample_payload(SourceId::Cldr, Some("de"), None, None);
    assert_eq!(
        prepare_source(SourceId::Cldr, &cldr, PreparedKind::CanonicalMap, None, None).err(),
        Some("cldr prepare requires --lang".to_string())
    );
    let lex = prepare_source(SourceId::Cldr, &cldr, PreparedKind::MultiwordMap, Some("de"), Some(&provenance)).expect("cldr");
    assert_eq!(lex.sources[0].url, "https://example.invalid/cldr");
    assert_eq!(lex.sources[0].version, "47.0.0");
    match &lex.payload {
        PreparedPayload::MultiwordMap(map) => {
            assert_eq!(map.get("vereinigte staaten").map(|s| s.as_str()), Some("Vereinigte Staaten"));
            assert_eq!(map.get("deutschland"), None);
        }
        _ => panic!("expected a multiword map"),
    }
}

#[test]
fn prepares_word_sets_and_ranked_candidates() {
    let sample = sample_payload(SourceId::Wiktionary, Some("de"), None, None);
    let lex = prepare_source(SourceId::Wiktionary, &sample, PreparedKind::WordSet, Some("de"), None).expect("words");
    assert_eq!(lex.name, "wiktionary-word-set");
    assert_eq!(lex.license.acknowledgement_flag, Some("--acknowledge-share-alike".to_string()));
    match &lex.payload {
        PreparedPayload::WordSet(words) => {
            assert_eq!(words, &vec!["hallo", "hallos", "laufen", "lief", "läuft"]);
        }
        _ => panic!("expected a word set"),
    }
    let ud = sample_payload(SourceId::UdGermanGsd, None, None, None);
    let lex = prepare_source(SourceId::UdGermanGsd, &ud, PreparedKind::RankedCandidates, Some("de"), None).expect("ranked");
    assert_eq!(lex.name, "ud-german-gsd-ranked-candidates");
    match &lex.payload {
        PreparedPayload::RankedCandidates(map) => {
            let candidates = map.get("berlin").expect("berlin");
            assert_eq!(candidates[0].value, "Berlin");
            assert_eq!(candidates[0].score, 380);
        }
        _ => panic!("expected ranked candidates"),
    }
    assert!(prepare_source(SourceId::Geonames, b"", PreparedKind::CanonicalMap, None, None).is_err());
}

#[test]
fn word_sets_are_lowercase_sorted_and_unique() {
    let records = vec![
        SourceRecord { canonical: "Zeta".to_string(), aliases: vec!["ALPHA".to_string()], score: Score::Hundredths(1) },
        SourceRecord { canonical: "alpha".to_string(), aliases: vec![], score: Score::Hundredths(1) },
    ];
    assert_eq!(build_word_set(&records), vec!["alpha".to_string(), "zeta".to_string()]);
    assert_eq!(kind_label(PreparedKind::ProtectedForms), "protected-forms");
    assert_eq!(PreparedKind::from(PreparedKindArg::MultiwordMap), PreparedKind::MultiwordMap);
}

#[test]
fn resolves_fetch_plans() {
    let mut args = fetch_args(SourceId::Gnd);
    args.sample = true;
    args.country = Some("AT".to_string());
    let plan = resolve_plan(&args).ok().expect("sample");
    assert_eq!(plan.source_url, "sample://textcase/gnd");
    assert_eq!(plan.version, "deterministic-sample");
    assert_eq!(plan.output_suffix, "at");
    assert!(plan.sample);
    assert!(matches!(plan.payload, Payload::Sample(ref bytes) if *bytes == sample_payload(SourceId::Gnd, None, Some("AT"), None)));

    let mut args = fetch_args(SourceId::Gnd);
    args.url = Some("https://lobid.org/gnd/118540238.json".to_string());
    let plan = resolve_plan(&args).ok().expect("url");
    assert_eq!(plan.version, "user-supplied");
    assert_eq!(plan.output_suffix, "custom");
    assert!(matches!(plan.payload, Payload::Urls(ref urls) if urls.len() == 1));

    let mut args = fetch_args(SourceId::NaturalEarth);
    args.region = Some("EU".to_string());
    assert_eq!(suffix_or(&args, "x"), "eu");
    let plan = resolve_plan(&args).ok().expect("built in");
    assert_eq!(plan.output_suffix, "world");
    assert!(!plan.sample);
}

#[test]
fn part_files_sit_beside_the_output() {
    assert_eq!(part_path("data/raw/gnd-de.json", 0), "data/raw/gnd-de.json.part0");
    assert_eq!(part_path("out.tsv", 12), "out.tsv.part12");
    assert_eq!(source_manifest_path("data/raw/gnd-de.json"), "data/raw/gnd-de.source.json");
    assert!(check_single_part(SourceId::Gnd, 1).is_ok());
    assert_eq!(
        check_single_part(SourceId::Gnd, 2).unwrap_err(),
        "gnd is a single-payload source but 2 parts were fetched"
    );
}

#[test]
fn normalized_downloads_must_validate() {
    let sample = sample_payload(SourceId::UdGermanGsd, None, None, None);
    let out = normalize_and_validate(SourceId::UdGermanGsd, vec![sample.clone()]).expect("ud");
    assert_eq!(out, sample);
    assert_eq!(
        normalize_and_validate(SourceId::UdGermanGsd, vec![b"# nothing\n".to_vec()]).unwrap_err(),
        "UD German GSD payload did not yield noun candidates"
    );
}
