use textcase_cli::lexicon::{Score, SourceRecord};
use textcase_cli::prepare::normalize::{folded_forms, lookup_entries, matches_folded};

fn is_spelling_variant(alias: &str, canonical: &str) -> bool {
    matches_folded(alias, &folded_forms(canonical))
}

#[test]
fn detects_spelling_variants() {
    assert!(is_spelling_variant("bjork", "Björk"));
    assert!(is_spelling_variant("Muenchen", "München"));
    assert!(is_spelling_variant("Sao Paulo", "São Paulo"));
    assert!(is_spelling_variant("NWA", "N.W.A"));
    assert!(is_spelling_variant("cote d'ivoire", "Côte d'Ivoire"));
    assert!(!is_spelling_variant("Berlim", "Berlin"));
    assert!(!is_spelling_variant("Munich", "München"));
    assert!(!is_spelling_variant("Probleme", "Problem"));
}

fn record(canonical: &str, aliases: &[&str]) -> SourceRecord {
    SourceRecord {
        canonical: canonical.to_string(),
        aliases: aliases.iter().map(|a| a.to_string()).collect(),
        score: Score::Hundredths(100),
    }
}

#[test]
fn variant_aliases_restore_the_canonical() {
    let record = record("Björk", &["bjork"]);
    assert_eq!(
        lookup_entries(&record),
        vec![
            ("bjork".to_string(), "Björk".to_string()),
            ("björk".to_string(), "Björk".to_string()),
        ]
    );
}

#[test]
fn different_names_restore_their_own_casing() {
    let record = record("Volkswagen Aktiengesellschaft", &["Volkswagen AG"]);
    let entries = lookup_entries(&record);
    assert!(entries.contains(&("volkswagen ag".to_string(), "Volkswagen AG".to_string())));
    assert!(!entries.contains(&(
        "volkswagen ag".to_string(),
        "Volkswagen Aktiengesellschaft".to_string()
    )));
}

#[test]
fn caseless_different_names_are_dropped() {
    let record = record("Berlin", &["berlim"]);
    assert_eq!(
        lookup_entries(&record),
        vec![("berlin".to_string(), "Berlin".to_string())]
    );
}

#[test]
fn spelling_variant_relation_is_symmetric_and_reflexive() {
    for (a, b) in [("bjork", "Björk"), ("Berlim", "Berlin"), ("NWA", "N.W.A")] {
        assert_eq!(is_spelling_variant(a, b), is_spelling_variant(b, a));
        assert!(is_spelling_variant(a, a));
    }
}

#[test]
fn entries_always_include_the_canonical_under_its_lowercase() {
    let record = record("São Paulo", &["Sao Paulo", "SP"]);
    let entries = lookup_entries(&record);
    assert!(entries.contains(&("são paulo".to_string(), "São Paulo".to_string())));
    assert!(entries.contains(&("sao paulo".to_string(), "São Paulo".to_string())));
    assert!(entries.contains(&("sp".to_string(), "SP".to_string())));
    let mut sorted = entries.clone();
    sorted.sort();
    sorted.dedup();
    assert_eq!(entries, sorted);
}
