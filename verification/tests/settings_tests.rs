use wiktionary_en::cli::{cache_update, get_language};
use wiktionary_en::db::{
    check_import, extension_collection, get_polo_db_path, history_collection, history_update_at,
    random_entry_number, upsert_into_history, HistoryUpdate, ImportError,
};
use wiktionary_en::download::{resource_url, DownloadError, Downloader};
use wiktionary_en::entities::config::Config;
use wiktionary_en::entities::history_entry::{HistoryEntry, Timestamp};
use wiktionary_en::entities::results::SearchResult;
use wiktionary_en::extension::{
    apply_interception, ExtensionErrorType, FormattingStep, ListFormatting,
};
use wiktionary_en::file_utils::{fill_template, get_db_path};
use wiktionary_en::language::Language;
use wiktionary_en::stats::{pad, stats_text};

fn plain_output() {
    colored::control::set_override(false);
}

#[test]
fn template_placeholder_is_filled_once() {
    assert_eq!(fill_template("wiktionary-{}.json", "en"), "wiktionary-en.json");
    assert_eq!(fill_template("{}-{}", "de"), "de-{}");
    assert_eq!(fill_template("no placeholder", "sv"), "no placeholder");
    assert_eq!(fill_template("{", "sv"), "{");
    assert_eq!(fill_template("", "sv"), "");
}

#[test]
fn db_path_prefers_the_given_path() {
    let template = "/data/wiktionary-{}.json";
    assert_eq!(get_db_path(Some("/tmp/own.json".to_string()), &Language::DE, template), "/tmp/own.json");
    assert_eq!(get_db_path(None, &Language::DE, template), "/data/wiktionary-de.json");
}

#[test]
fn database_paths_and_collections() {
    let template = "/db/{}.polo";
    assert_eq!(get_polo_db_path("/var/db"), "/var/db");
    assert_eq!(wiktionary_en::db::get_db_path(None, &Some(Language::FR), template), "/db/fr.polo");
    assert_eq!(wiktionary_en::db::get_db_path(None, &None, template), "/db/en.polo");
    assert_eq!(
        wiktionary_en::db::get_db_path(Some("/x".to_string()), &None, template),
        "/x"
    );
    assert_eq!(history_collection(&Language::SV), "history_sv");
    assert_eq!(extension_collection(&Language::ES, "notes"), "extension_es_notes");
}

#[test]
fn import_refuses_a_populated_database() {
    assert!(check_import(0, Language::EN, false).is_ok());
    assert!(check_import(12, Language::EN, true).is_ok());
    match check_import(12, Language::DE, false) {
        Err(ImportError::AlreadyPopulated { count, language }) => {
            assert_eq!(count, 12);
            assert_eq!(language, Language::DE);
        }
        Ok(()) => panic!("a populated database was accepted"),
    }
}

#[test]
fn random_entry_number_is_in_range() {
    let mut seen = [false; 3];
    for _ in 0..1000 {
        let n = random_entry_number(3);
        assert!(n < 3);
        seen[n as usize] = true;
    }
    assert!(seen.iter().all(|drawn| *drawn));
    assert_eq!(random_entry_number(1), 0);
}

#[test]
fn history_counts_each_lookup() {
    let first = HistoryEntry::from("dog".to_string());
    assert_eq!(first.word, "dog");
    assert_eq!(first.count, 0);
    assert_eq!(first.last_seen_at, first.now_seen_at);
    let mut again = first.clone();
    again.tick();
    assert_eq!(again.count, 1);
    assert_eq!(again.last_seen_at, first.now_seen_at);
    assert_eq!(again.word, "dog");
}

#[test]
fn upsert_updates_or_inserts() {
    match upsert_into_history(None, "cat".to_string()) {
        HistoryUpdate::Insert(entry) => {
            assert_eq!(entry.word, "cat");
            assert_eq!(entry.count, 0);
        }
        HistoryUpdate::Update(_) => panic!("nothing to update"),
    }
    let existing = HistoryEntry::from("cat".to_string());
    match upsert_into_history(Some(existing.clone()), "cat".to_string()) {
        HistoryUpdate::Update(entry) => {
            assert_eq!(entry.word, "cat");
            assert_eq!(entry.count, 1);
            assert_eq!(entry.last_seen_at, existing.now_seen_at);
        }
        HistoryUpdate::Insert(_) => panic!("the entry exists"),
    }
}

#[test]
fn download_goes_to_kaikki() {
    assert_eq!(
        resource_url(&Language::EN),
        "https://kaikki.org/dictionary/English/kaikki.org-dictionary-English.jsonl"
    );
    assert_eq!(
        resource_url(&Language::SV),
        "https://kaikki.org/dictionary/Swedish/kaikki.org-dictionary-Swedish.jsonl"
    );
}

#[test]
fn download_refuses_to_overwrite_without_force() {
    let name = "wiktionary-de.json".to_string();
    match Downloader::download_dictionary_extract(&Language::DE, false, name.clone(), true) {
        Err(DownloadError::FileExists(f)) => assert_eq!(f, name),
        Ok(_) => panic!("an existing file would be overwritten"),
    }
    let request =
        Downloader::download_dictionary_extract(&Language::DE, true, name.clone(), true).unwrap();
    assert_eq!(request.url, "https://kaikki.org/dictionary/German/kaikki.org-dictionary-German.jsonl");
    assert_eq!(request.output_filename, name);
    assert!(Downloader::download_dictionary_extract(&Language::FR, false, name, false).is_ok());
}

#[test]
fn language_argument_falls_back() {
    assert_eq!(get_language(&None), Language::EN);
    assert_eq!(get_language(&Some("sv".to_string())), Language::SV);
    assert_eq!(get_language(&Some("xx".to_string())), Language::EN);
}

#[test]
fn config_language_is_used_without_an_argument() {
    let config = Config { language: Language::FR };
    assert_eq!(config.or_use_config_or_default(None), Language::FR);
    assert_eq!(config.or_use_config_or_default(Some(Language::ES)), Language::ES);
    assert_eq!(Config::default().language, Language::EN);
}

#[test]
fn extension_error_codes() {
    assert_eq!(ExtensionErrorType::from("unknown_option"), ExtensionErrorType::UnknownOption);
    assert_eq!(ExtensionErrorType::from("anything"), ExtensionErrorType::UnknownError);
    assert_eq!(ExtensionErrorType::UnknownOption.to_string(), "unknown extension option");
    assert_eq!(ExtensionErrorType::UnknownError.to_string(), "unknown extension error");
}

#[test]
fn interception_replaces_the_result() {
    let mut result = SearchResult { word: "dog".to_string(), did_you_mean: None, hits: vec![] };
    apply_interception(&mut result, None);
    assert_eq!(result.word, "dog");
    let replacement = SearchResult { word: "cat".to_string(), did_you_mean: None, hits: vec![] };
    apply_interception(&mut result, Some(replacement));
    assert_eq!(result.word, "cat");
}

#[test]
fn list_formatting_needs_every_item() {
    let (state, step) = ListFormatting::start(2);
    assert!(matches!(step, FormattingStep::FormatNext));
    let (state, step) = state.answer(Some("one".to_string()));
    assert!(matches!(step, FormattingStep::FormatNext));
    let (_, step) = state.answer(Some("two".to_string()));
    match step {
        FormattingStep::Finish(Some(all)) => assert_eq!(all, vec!["one", "two"]),
        _ => panic!("both items were formatted"),
    }
    let (state, _) = ListFormatting::start(2);
    let (_, step) = state.answer(None);
    assert!(matches!(step, FormattingStep::Finish(None)));
    let (_, step) = ListFormatting::start(0);
    match step {
        FormattingStep::Finish(Some(all)) => assert!(all.is_empty()),
        _ => panic!("an empty list is done at once"),
    }
}

#[test]
fn statistics_are_aligned_lines() {
    plain_output();
    assert_eq!(
        stats_text("/data/wiktionary-en.json", Some(1234567), Some(2048)),
        "dictionary file    : /data/wiktionary-en.json\ndictionary entries : 1,234,567\ndictionary size    : 2,048 MB"
    );
    assert_eq!(stats_text("/data/partitioned", None, None), "dictionary file    : /data/partitioned");
    assert_eq!(pad("abc", 5), "abc  ");
    assert_eq!(pad("abcdef", 5), "abcdef");
}

#[test]
fn history_entry_description() {
    let mut entry = HistoryEntry::from("dog".to_string());
    entry.tick();
    entry.tick();
    assert_eq!(
        entry.describe("yesterday", "today"),
        "found dog\nlast seen at yesterday\nnow seen at today\ncount is 2\n"
    );
}

#[test]
fn only_found_matches_are_cached() {
    assert!(!cache_update(&vec![]));
    let entry = wiktionary_en::entities::dictionary_entry::DictionaryEntry {
        lang_code: "en".to_string(),
        word: "dog".to_string(),
        senses: vec![],
        pos: "noun".to_string(),
        translations: vec![],
        sounds: vec![],
        etymology_text: None,
    };
    assert!(cache_update(&vec![entry]));
}

#[test]
fn unsupported_language_message_names_the_code() {
    let err = Language::from_str("xx").unwrap_err();
    assert_eq!(err.message(), "unsupported language code: 'xx'");
}

#[test]
fn history_times_are_the_given_moments() {
    let first = Timestamp { seconds: 100, nanoseconds: 5 };
    let later = Timestamp { seconds: 200, nanoseconds: 7 };
    let mut entry = HistoryEntry::first_seen_at("dog".to_string(), first);
    assert_eq!(entry.now_seen_at, first);
    assert_eq!(entry.last_seen_at, first);
    entry.seen_again_at(later);
    assert_eq!(entry.last_seen_at, first);
    assert_eq!(entry.now_seen_at, later);
    assert_eq!(entry.count, 1);
    match history_update_at(Some(entry.clone()), "dog".to_string(), first) {
        HistoryUpdate::Update(u) => {
            assert_eq!(u.now_seen_at, first);
            assert_eq!(u.last_seen_at, later);
            assert_eq!(u.count, 2);
        }
        HistoryUpdate::Insert(_) => panic!("the entry exists"),
    }
    match history_update_at(None, "cat".to_string(), later) {
        HistoryUpdate::Insert(i) => {
            assert_eq!(i.now_seen_at, later);
            assert_eq!(i.last_seen_at, later);
        }
        HistoryUpdate::Update(_) => panic!("nothing to update"),
    }
    let now = HistoryEntry::from("owl".to_string());
    assert!(now.now_seen_at.nanoseconds < 2_000_000_000);
}
