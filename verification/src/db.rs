//! The decisions around the dictionary database: where it is, how its
//! collections are named, when an import may replace entries, which entry
//! is drawn at random, and how the history is updated.
use vstd::prelude::*;
use crate::entities::history_entry::{HistoryEntry, Timestamp, utc_now};
use crate::file_utils::{fill_placeholder, fill_template};
use crate::language::{Language, language_code, default_language};
use crate::text::concat;

verus! {

/// The directory of the database: the configured one.
pub fn get_polo_db_path(database_dir: &str) -> (res: String)
    ensures
        res@ == database_dir@,
{
    database_dir.to_owned()
}

/// The path of the dictionary file: the path given, or else the default
/// path of the language (the default language when none is given),
/// `template` with the language code in place of its `{}`.
pub fn get_db_path(path: Option<String>, language: &Option<Language>, template: &str) -> (res: String)
    ensures
        res@ == match path {
            Some(p) => p@,
            None => fill_placeholder(
                template@,
                language_code(
                    match language {
                        Some(l) => *l,
                        None => default_language(),
                    },
                ),
            ),
        },
{
    if let Some(path) = path {
        return path;
    }
    let language = match language {
        Some(l) => *l,
        None => Language::default(),
    };
    fill_template(template, language.value().as_str())
}

/// The name of the history collection of a language.
pub fn history_collection(language: &Language) -> (res: String)
    ensures
        res@ == "history_"@ + language_code(*language),
{
    concat("history_", language.value().as_str())
}

/// The name of the collection of an extension for a language.
pub fn extension_collection(language: &Language, extension_name: &str) -> (res: String)
    ensures
        res@ == "extension_"@ + language_code(*language) + "_"@ + extension_name@,
{
    concat(
        concat(concat("extension_", language.value().as_str()).as_str(), "_").as_str(),
        extension_name,
    )
}

/// Why an import is refused.
#[derive(Clone, Copy, Debug)]
pub enum ImportError {
    /// The dictionary holds entries already, and replacing them was not
    /// asked for.
    AlreadyPopulated { count: u64, language: Language },
}

/// Whether an import may go on: it is refused when the dictionary of the
/// language holds entries and `force` is not given.
pub fn check_import(count: u64, language: Language, force: bool) -> (res: Result<(), ImportError>)
    ensures
        res is Err <==> (!force && count > 0),
        res matches Err(ImportError::AlreadyPopulated { count: c, language: l }) ==> c == count
            && l == language,
{
    if !force && count > 0 {
        return Err(ImportError::AlreadyPopulated { count, language });
    }
    Ok(())
}

/// A number drawn uniformly below `upper`: `rand::random_range(0..upper)`,
/// on the thread's generator. It depends on chance, so nothing is stated
/// of it but its range; the crate panics on an empty range, which the
/// bound on `upper` rules out.
#[verifier::external_body]
fn random_below(upper: u64) -> (res: u64)
    requires
        upper > 0,
    ensures
        res < upper,
{
    rand::random_range(0..upper)
}

/// The position of the entry drawn at random among `n_entries`: any of
/// them, for a sample of the whole collection.
pub fn random_entry_number(n_entries: u64) -> (res: u64)
    requires
        n_entries >= 1,
    ensures
        res < n_entries,
{
    random_below(n_entries)
}

/// How the history changes when a word is looked up.
#[derive(Clone, Debug)]
pub enum HistoryUpdate {
    /// The word was seen before: its entry, seen again now.
    Update(HistoryEntry),
    /// The word is new: its first entry.
    Insert(HistoryEntry),
}

/// How the history changes when `term` is looked up at `now`, given its
/// entry in the history when it has one.
pub fn history_update_at(existing: Option<HistoryEntry>, term: String, now: Timestamp) -> (res:
    HistoryUpdate)
    requires
        existing matches Some(e) ==> e.count < usize::MAX,
    ensures
        match existing {
            Some(e) => res matches HistoryUpdate::Update(u) && u.word == e.word && u.last_seen_at
                == e.now_seen_at && u.now_seen_at == now && u.count == e.count + 1,
            None => res matches HistoryUpdate::Insert(i) && i.word == term && i.count == 0
                && i.last_seen_at == now && i.now_seen_at == now,
        },
{
    match existing {
        Some(entry) => {
            let mut entry = entry;
            entry.seen_again_at(now);
            HistoryUpdate::Update(entry)
        },
        None => HistoryUpdate::Insert(HistoryEntry::first_seen_at(term, now)),
    }
}

/// How the history changes when `term` is looked up now, at the time the
/// clock gives, given its entry in the history when it has one.
pub fn upsert_into_history(existing: Option<HistoryEntry>, term: String) -> (res: HistoryUpdate)
    requires
        existing matches Some(e) ==> e.count < usize::MAX,
    ensures
        match existing {
            Some(e) => res matches HistoryUpdate::Update(u) && u.word == e.word && u.last_seen_at
                == e.now_seen_at && u.now_seen_at.nanoseconds < 2_000_000_000 && u.count == e.count
                + 1,
            None => res matches HistoryUpdate::Insert(i) && i.word == term && i.count == 0
                && i.last_seen_at == i.now_seen_at && i.now_seen_at.nanoseconds < 2_000_000_000,
        },
{
    history_update_at(existing, term, utc_now())
}

} // verus!
