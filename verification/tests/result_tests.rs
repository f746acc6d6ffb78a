use wiktionary_en::cli::{
    alternative_result, evaluate_cache, exact_result, exhaustive_result, fmt_dictionary_result,
    format_search_result, random_result,
};
use wiktionary_en::entities::dictionary_entry::{DictionaryEntry, Sense};
use wiktionary_en::entities::result::{did_you_mean_banner, format_hits, DictionaryResult, DidYouMean};
use wiktionary_en::entities::results::SearchResult as ExtensionSearchResult;
use wiktionary_en::exhaustive_search::SearchResult;

fn plain_output() {
    colored::control::set_override(false);
}

fn entry(word: &str, gloss: &str) -> DictionaryEntry {
    DictionaryEntry {
        lang_code: "en".to_string(),
        word: word.to_string(),
        senses: vec![Sense { glosses: vec![gloss.to_string()], examples: vec![], tags: vec![] }],
        pos: "noun".to_string(),
        translations: vec![],
        sounds: vec![],
        etymology_text: None,
    }
}

#[test]
fn banner_names_the_term_and_the_suggestion() {
    plain_output();
    assert_eq!(
        did_you_mean_banner("hoose", "house"),
        "No result for hoose.\nDid you mean  house?\n"
    );
}

#[test]
fn did_you_mean_is_the_banner_and_a_blank_line() {
    plain_output();
    let d = DidYouMean { searched_for: "hoose".to_string(), suggestion: "house".to_string() };
    assert_eq!(d.to_string(), "No result for hoose.\nDid you mean  house?\n\n");
}

#[test]
fn hits_are_separated_by_line_breaks() {
    plain_output();
    let a = entry("dog", "A mammal.");
    let b = entry("dog", "A scoundrel.");
    let expected = format!("{}\n{}\n", a.to_pretty_string(), b.to_pretty_string());
    assert_eq!(format_hits(&vec![a, b]), expected);
    assert_eq!(format_hits(&vec![]), "");
}

#[test]
fn result_shows_the_suggestion_before_the_hits() {
    plain_output();
    let hit = entry("house", "A building.");
    let result = DictionaryResult {
        word: "hoose".to_string(),
        did_you_mean: Some(DidYouMean {
            searched_for: "hoose".to_string(),
            suggestion: "house".to_string(),
        }),
        hits: vec![hit.clone()],
    };
    let expected = format!(
        "No result for hoose.\nDid you mean  house?\n\n{}\n",
        hit.to_pretty_string()
    );
    assert_eq!(result.to_string(), expected);
    let same = ExtensionSearchResult {
        word: result.word.clone(),
        did_you_mean: result.did_you_mean.clone(),
        hits: result.hits.clone(),
    };
    assert_eq!(same.to_string(), expected);
}

#[test]
fn cache_answers_with_enough_entries() {
    let cached = vec![entry("dog", "A mammal."), entry("dog", "A scoundrel.")];
    assert_eq!(evaluate_cache(Some(cached.clone()), 2).map(|e| e.len()), Some(2));
    assert_eq!(evaluate_cache(Some(cached.clone()), 1).map(|e| e.len()), Some(2));
    assert!(evaluate_cache(Some(cached), 3).is_none());
    assert!(evaluate_cache(None, 0).is_none());
}

#[test]
fn exact_result_needs_hits() {
    assert!(exact_result("dog", vec![]).is_none());
    let result = exact_result("dog", vec![entry("dog", "A mammal.")]).unwrap();
    assert_eq!(result.word, "dog");
    assert!(result.did_you_mean.is_none());
    assert_eq!(result.hits.len(), 1);
}

#[test]
fn alternative_result_names_the_suggestion() {
    assert!(alternative_result("hoose", "house".to_string(), vec![]).is_none());
    let result =
        alternative_result("hoose", "house".to_string(), vec![entry("house", "A building.")])
            .unwrap();
    assert_eq!(result.word, "hoose");
    let d = result.did_you_mean.unwrap();
    assert_eq!(d.searched_for, "hoose");
    assert_eq!(d.suggestion, "house");
    assert_eq!(result.hits[0].word, "house");
}

#[test]
fn random_result_shows_the_entry() {
    let result = random_result(entry("cat", "A feline."));
    assert_eq!(result.word, "cat");
    assert!(result.did_you_mean.is_none());
    assert_eq!(result.hits.len(), 1);
}

#[test]
fn formatted_parts_are_one_per_line() {
    plain_output();
    let result = DictionaryResult {
        word: "hoose".to_string(),
        did_you_mean: Some(DidYouMean {
            searched_for: "hoose".to_string(),
            suggestion: "house".to_string(),
        }),
        hits: vec![entry("house", "A building.")],
    };
    let formatted = fmt_dictionary_result(
        &result,
        Some("banner".to_string()),
        Some(vec!["first".to_string(), "second".to_string()]),
    );
    assert_eq!(formatted, "banner\nfirst\nsecond");
    let unformatted = fmt_dictionary_result(&result, None, None);
    let expected = format!(
        "No result for hoose.\nDid you mean  house?\n\n\n{}",
        result.hits[0].to_pretty_string()
    );
    assert_eq!(unformatted, expected);
    let without_suggestion = DictionaryResult {
        word: "house".to_string(),
        did_you_mean: None,
        hits: vec![],
    };
    assert_eq!(fmt_dictionary_result(&without_suggestion, None, None), "");
}

#[test]
fn search_result_without_matches_shows_the_suggestion() {
    plain_output();
    let closest = entry("house", "A building.");
    let result = SearchResult {
        full_matches: vec![],
        did_you_mean: Some(closest.clone()),
        distance: 1,
    };
    let expected = format!(
        "No result for hoose.\nDid you mean  house?\n{}\n",
        closest.to_pretty_string()
    );
    assert_eq!(format_search_result("hoose", &result), expected);
    let nothing = SearchResult { full_matches: vec![], did_you_mean: None, distance: usize::MAX };
    assert_eq!(format_search_result("hoose", &nothing), "No results\n");
}

#[test]
fn search_result_with_matches_shows_them_only() {
    plain_output();
    let hit = entry("dog", "A mammal.");
    let result = SearchResult {
        full_matches: vec![hit.clone()],
        did_you_mean: Some(hit.clone()),
        distance: 0,
    };
    assert_eq!(format_search_result("dog", &result), format!("{}\n", hit.to_pretty_string()));
}

#[test]
fn exhaustive_result_prefers_exact_matches() {
    let hit = entry("dog", "A mammal.");
    let found = SearchResult { full_matches: vec![hit.clone()], did_you_mean: Some(hit), distance: 0 };
    let result = exhaustive_result("dog", found);
    assert_eq!(result.word, "dog");
    assert!(result.did_you_mean.is_none());
    assert_eq!(result.hits.len(), 1);

    let closest = entry("house", "A building.");
    let found = SearchResult { full_matches: vec![], did_you_mean: Some(closest), distance: 1 };
    let result = exhaustive_result("hoose", found);
    let d = result.did_you_mean.unwrap();
    assert_eq!(d.searched_for, "hoose");
    assert_eq!(d.suggestion, "house");
    assert_eq!(result.hits[0].word, "house");

    let nothing = SearchResult { full_matches: vec![], did_you_mean: None, distance: usize::MAX };
    let result = exhaustive_result("xyz", nothing);
    assert!(result.did_you_mean.is_none());
    assert!(result.hits.is_empty());
}
