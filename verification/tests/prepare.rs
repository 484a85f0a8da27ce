use textcase_cli::collections::StringMap;
use textcase_cli::lexicon::{Score, SourceRecord};
use textcase_cli::prepare::{canonical_map, fst_build, multiword_map, ranked};

fn record(canonical: &str, aliases: &[&str], score: u32) -> SourceRecord {
    SourceRecord {
        canonical: canonical.to_string(),
        aliases: aliases.iter().map(|a| a.to_string()).collect(),
        score: Score::Hundredths(score),
    }
}

#[test]
fn protected_forms_keep_mixed_case_names_under_their_lowercase() {
    let records = vec![
        record("GitHub", &["Github"], 100),
        record("Berlin", &[], 100),
        record("NASA", &[], 100),
        record("iPhone", &[], 100),
        record("rust", &[], 100),
    ];
    let entries = canonical_map::build_protected(&records).into_entries();
    let expected: Vec<(String, String)> = vec![
        ("berlin".to_string(), "Berlin".to_string()),
        ("github".to_string(), "GitHub".to_string()),
        ("iphone".to_string(), "iPhone".to_string()),
    ];
    assert_eq!(entries, expected);
    for (key, value) in &entries {
        assert_eq!(key, &value.to_lowercase());
        assert!(value.chars().any(char::is_lowercase) && value.chars().any(char::is_uppercase));
    }
}

#[test]
fn multiword_entries_have_spaces_on_both_sides() {
    let records = vec![
        record("New York", &["NYC", "new york city"], 100),
        record("Berlin", &["Berlin City"], 100),
    ];
    let entries = multiword_map::build(&records).into_entries();
    assert!(entries.iter().any(|(k, v)| k == "new york" && v == "New York"));
    assert!(!entries.iter().any(|(k, _)| k == "berlin"));
    for (key, value) in &entries {
        assert!(key.contains(' ') && value.contains(' '), "{key} -> {value}");
    }
}

#[test]
fn ranked_candidates_come_best_first_without_repeats() {
    let records = vec![
        record("Apple", &[], 100),
        record("APPLE", &[], 200),
        record("Apple", &[], 300),
        record("Apple", &[], 300),
    ];
    let entries = ranked::build(&records).into_entries();
    let (key, candidates) = entries.iter().find(|(k, _)| k == "apple").expect("apple is ranked");
    assert_eq!(key, "apple");
    assert_eq!(candidates[0].value, "Apple");
    assert_eq!(candidates[0].score, 300);
    for pair in candidates.windows(2) {
        assert!(pair[0].score > pair[1].score || (pair[0].score == pair[1].score && pair[0].value < pair[1].value));
        assert_ne!(pair[0].value, pair[1].value);
    }
}

#[test]
fn string_values_are_stored_in_key_order_after_what_the_store_holds() {
    let mut values: StringMap<String> = StringMap::new();
    values.insert("b".to_string(), "B".to_string());
    values.insert("a".to_string(), "A".to_string());
    let mut store = vec!["x".to_string()];
    let indexed = fst_build::index_string_values(values, &mut store).into_entries();
    assert_eq!(store, vec!["x".to_string(), "A".to_string(), "B".to_string()]);
    assert_eq!(indexed, vec![("a".to_string(), 1u64), ("b".to_string(), 2u64)]);
}
