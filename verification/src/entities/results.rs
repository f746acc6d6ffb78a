//! The results that the extensions receive: search results and the history.
use vstd::prelude::*;
use crate::entities::dictionary_entry::{DictionaryEntry, TranslationView};
use crate::entities::history_entry::HistoryEntry;
use crate::entities::result::{format_result, listings_of, entry_views, result_template};
use crate::render::renders_all;

pub use crate::entities::result::DidYouMean;

verus! {

/// The entries of the history.
#[derive(Clone, Debug)]
pub struct HistoryResult {
    pub history_entries: Vec<HistoryEntry>,
}

/// What was found for a word: the entries, and the suggestion that they are
/// the entries of when the word itself had none.
#[derive(Clone, Debug)]
pub struct SearchResult {
    pub word: String,
    pub did_you_mean: Option<DidYouMean>,
    pub hits: Vec<DictionaryEntry>,
}

impl SearchResult {
    /// The result as it is displayed: the suggestion when there is one, then
    /// the entries.
    pub fn to_string(&self) -> (res: String)
        ensures
            exists|tss: Seq<Seq<TranslationView>>|
                #[trigger] listings_of(tss, entry_views(self.hits@)) && renders_all(
                    res@,
                    result_template(self.did_you_mean, entry_views(self.hits@), tss),
                ),
    {
        format_result(&self.did_you_mean, &self.hits)
    }
}

} // verus!
