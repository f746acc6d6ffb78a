use wiktionary_en::entities::dictionary_entry::DictionaryEntry;
use wiktionary_en::exhaustive_search::{
    levenshtein_distance, merge_partition_results, search, SearchResult, SearchWorker,
};

fn entry(word: &str) -> DictionaryEntry {
    DictionaryEntry {
        lang_code: "en".to_string(),
        word: word.to_string(),
        senses: vec![],
        pos: "noun".to_string(),
        translations: vec![],
        sounds: vec![],
        etymology_text: None,
    }
}

fn words(entries: &[DictionaryEntry]) -> Vec<String> {
    entries.iter().map(|e| e.word.clone()).collect()
}

#[test]
fn levenshtein_distance_of_kitten_and_sitting() {
    assert_eq!(levenshtein_distance("kitten", "sitting", false), 3);
    assert_eq!(levenshtein_distance("sitting", "kitten", false), 3);
    assert_eq!(levenshtein_distance("dog", "dog", false), 0);
    assert_eq!(levenshtein_distance("", "abc", false), 3);
}

#[test]
fn levenshtein_distance_ignoring_case() {
    assert_eq!(levenshtein_distance("Dog", "dOG", true), 0);
    assert_eq!(levenshtein_distance("Dog", "dOG", false), 3);
    assert_eq!(levenshtein_distance("straße", "STRASSE", true), 0);
}

#[test]
fn search_collects_exact_matches_in_order() {
    let mut first = entry("dog");
    first.pos = "noun".to_string();
    let mut second = entry("dog");
    second.pos = "verb".to_string();
    let entries = vec![entry("cat"), first, entry("dot"), second];
    let result = search(&entries, "dog".to_string(), 5, false);
    assert_eq!(words(&result.full_matches), vec!["dog", "dog"]);
    assert_eq!(result.full_matches[0].pos, "noun");
    assert_eq!(result.full_matches[1].pos, "verb");
    assert_eq!(result.distance, 0);
    assert_eq!(result.did_you_mean.unwrap().pos, "noun");
}

#[test]
fn search_stops_at_the_maximal_number_of_results() {
    let entries = vec![entry("dog"), entry("dig"), entry("dog"), entry("dog")];
    let result = search(&entries, "dog".to_string(), 2, false);
    assert_eq!(words(&result.full_matches), vec!["dog", "dog"]);
}

#[test]
fn search_suggests_the_first_closest_entry() {
    let entries = vec![entry("house"), entry("mouse"), entry("hose"), entry("horse")];
    let result = search(&entries, "hoose".to_string(), 1, false);
    assert!(result.full_matches.is_empty());
    assert_eq!(result.distance, 1);
    assert_eq!(result.did_you_mean.unwrap().word, "house");
}

#[test]
fn search_ignoring_case() {
    let entries = vec![entry("Berlin"), entry("berlin"), entry("Bern")];
    let result = search(&entries, "BERLIN".to_string(), 10, true);
    assert_eq!(words(&result.full_matches), vec!["Berlin", "berlin"]);
    let result = search(&entries, "BERLIN".to_string(), 10, false);
    assert!(result.full_matches.is_empty());
    assert_eq!(result.did_you_mean.unwrap().word, "Berlin");
}

#[test]
fn search_in_no_entries() {
    let result = search(&vec![], "dog".to_string(), 1, false);
    assert!(result.full_matches.is_empty());
    assert!(result.did_you_mean.is_none());
    assert_eq!(result.distance, usize::MAX);
}

#[test]
fn worker_is_done_after_enough_matches() {
    let mut worker = SearchWorker::new("dog".to_string(), 1, false);
    assert!(!worker.is_done());
    worker.evaluate(entry("cat"));
    assert!(!worker.is_done());
    worker.evaluate(entry("dog"));
    assert!(worker.is_done());
    let result = worker.into_result();
    assert_eq!(words(&result.full_matches), vec!["dog"]);
}

#[test]
fn partitions_merge_into_the_search_of_the_whole() {
    let first = vec![entry("hose"), entry("dog")];
    let second = vec![entry("dog"), entry("house")];
    let third = vec![entry("cat")];
    let term = "hoose".to_string();
    let results = vec![
        search(&first, term.clone(), 10, false),
        search(&second, term.clone(), 10, false),
        search(&third, term.clone(), 10, false),
    ];
    let merged = merge_partition_results(results, 10);
    let mut whole = first.clone();
    whole.extend(second.clone());
    whole.extend(third.clone());
    let direct = search(&whole, term, 10, false);
    assert_eq!(words(&merged.full_matches), words(&direct.full_matches));
    assert_eq!(merged.distance, direct.distance);
    assert_eq!(merged.distance, 1);
    assert_eq!(merged.did_you_mean.unwrap().word, "hose");
}

#[test]
fn partition_matches_come_in_partition_order() {
    let mut noun = entry("dog");
    noun.pos = "noun".to_string();
    let mut verb = entry("dog");
    verb.pos = "verb".to_string();
    let results = vec![
        SearchResult { full_matches: vec![noun.clone()], did_you_mean: Some(noun), distance: 0 },
        SearchResult { full_matches: vec![], did_you_mean: None, distance: usize::MAX },
        SearchResult { full_matches: vec![verb.clone()], did_you_mean: Some(verb), distance: 0 },
    ];
    let merged = merge_partition_results(results, 5);
    let kinds: Vec<String> = merged.full_matches.iter().map(|e| e.pos.clone()).collect();
    assert_eq!(kinds, vec!["noun", "verb"]);
    assert_eq!(merged.distance, 0);
    assert_eq!(merged.did_you_mean.unwrap().pos, "noun");
    let empty = merge_partition_results(vec![], 1);
    assert!(empty.full_matches.is_empty());
    assert!(empty.did_you_mean.is_none());
    assert_eq!(empty.distance, usize::MAX);
}

#[test]
fn search_keeps_no_match_for_a_maximum_of_zero() {
    let entries = vec![entry("dog"), entry("dog"), entry("cat")];
    let result = search(&entries, "dog".to_string(), 0, false);
    assert!(result.full_matches.is_empty());
    assert_eq!(result.did_you_mean.unwrap().word, "dog");
    assert_eq!(result.distance, 0);
}

#[test]
fn merged_partitions_keep_at_most_the_maximum() {
    let mut first = entry("dog");
    first.pos = "noun".to_string();
    let mut second = entry("dog");
    second.pos = "verb".to_string();
    let results = vec![
        search(&vec![first], "dog".to_string(), 1, false),
        search(&vec![second], "dog".to_string(), 1, false),
    ];
    let merged = merge_partition_results(results, 1);
    assert_eq!(merged.full_matches.len(), 1);
    assert_eq!(merged.full_matches[0].pos, "noun");
}
