//! The result of looking up a word, with the suggestion made when the word
//! itself was not found.
use vstd::prelude::*;
use crate::entities::dictionary_entry::{DictionaryEntry, DictionaryEntryView, TranslationView,
    entry_template, is_translation_listing};
use crate::render::{Piece, renders_all, cat, plain, lemma_renders_styled, lemma_renders_plain,
    lemma_renders_concat, lemma_renders_empty};
use crate::style::{red, yellow, red_code, yellow_code};
use crate::text::{newline, newline_string, concat};

verus! {

/// A word that was searched for and a word that was probably meant.
#[derive(Clone, Debug)]
pub struct DidYouMean {
    pub searched_for: String,
    pub suggestion: String,
}

/// What was found for a word: the entries, and the suggestion that they are
/// the entries of when the word itself had none.
#[derive(Clone, Debug)]
pub struct DictionaryResult {
    pub word: String,
    pub did_you_mean: Option<DidYouMean>,
    pub hits: Vec<DictionaryEntry>,
}

/// The banner that tells that a word was not found and which word was
/// probably meant.
pub open spec fn banner_template(search_term: Seq<char>, partial_match: Seq<char>) -> Seq<Piece> {
    seq![
        Piece::Plain("No result for "@),
        Piece::Styled(red_code(), search_term),
        Piece::Plain("."@ + newline() + "Did you mean  "@),
        Piece::Styled(yellow_code(), partial_match),
        Piece::Plain("?"@ + newline()),
    ]
}

/// The banner, formatted: the searched word in red, the suggestion in
/// yellow.
pub fn did_you_mean_banner(search_term: &str, partial_match: &str) -> (res: String)
    ensures
        renders_all(res@, banner_template(search_term@, partial_match@)),
{
    let term = red(search_term);
    let suggestion = yellow(partial_match);
    let middle = concat(concat(".", newline_string().as_str()).as_str(), "Did you mean  ");
    let end = concat("?", newline_string().as_str());
    proof {
        lemma_renders_plain("No result for "@);
        lemma_renders_styled(term@, red_code(), search_term@);
        lemma_renders_plain(middle@);
        lemma_renders_styled(suggestion@, yellow_code(), partial_match@);
        lemma_renders_plain(end@);
    }
    let ghost t1 = seq![Piece::Plain("No result for "@)];
    let ghost t2 = seq![Piece::Styled(red_code(), search_term@)];
    let ghost t3 = seq![Piece::Plain(middle@)];
    let ghost t4 = seq![Piece::Styled(yellow_code(), partial_match@)];
    let ghost t5 = seq![Piece::Plain(end@)];
    let res = cat(plain("No result for "), term.as_str(), Ghost(t1), Ghost(t2));
    let res = cat(res, middle.as_str(), Ghost(t1 + t2), Ghost(t3));
    let res = cat(res, suggestion.as_str(), Ghost(t1 + t2 + t3), Ghost(t4));
    let res = cat(res, end.as_str(), Ghost(t1 + t2 + t3 + t4), Ghost(t5));
    assert(t1 + t2 + t3 + t4 + t5 =~= banner_template(search_term@, partial_match@));
    res
}

/// The suggestion, as it is displayed: the banner and a line break.
pub open spec fn did_you_mean_template(d: DidYouMean) -> Seq<Piece> {
    banner_template(d.searched_for@, d.suggestion@) + seq![Piece::Plain(newline())]
}

impl DidYouMean {
    /// The suggestion as it is displayed.
    pub fn to_string(&self) -> (res: String)
        ensures
            renders_all(res@, did_you_mean_template(*self)),
    {
        let banner = did_you_mean_banner(self.searched_for.as_str(), self.suggestion.as_str());
        proof {
            lemma_renders_plain(newline());
        }
        cat(
            banner,
            newline_string().as_str(),
            Ghost(banner_template(self.searched_for@, self.suggestion@)),
            Ghost(crate::entities::dictionary_entry::newline_template()),
        )
    }
}

/// The entries as they are displayed, each followed by a line break, with
/// the translations of entry `i` listed as `tss[i]`.
pub open spec fn hits_template(hits: Seq<DictionaryEntryView>, tss: Seq<Seq<TranslationView>>) -> Seq<
    Piece,
>
    decreases hits.len(),
{
    if hits.len() == 0 {
        Seq::empty()
    } else {
        hits_template(hits.drop_last(), tss.drop_last()) + entry_template(
            hits.last(),
            tss.last(),
        ) + seq![Piece::Plain(newline())]
    }
}

/// The views of a list of entries.
pub open spec fn entry_views(entries: Seq<DictionaryEntry>) -> Seq<DictionaryEntryView> {
    entries.map_values(|e: DictionaryEntry| e@)
}

/// Each `tss[i]` lists the translations of entry `i`.
pub open spec fn listings_of(tss: Seq<Seq<TranslationView>>, hits: Seq<DictionaryEntryView>) -> bool {
    &&& tss.len() == hits.len()
    &&& forall|i: int| 0 <= i < hits.len() ==> is_translation_listing(#[trigger] tss[i], hits[i].translations)
}

/// The entries, each formatted and followed by a line break.
pub fn format_hits(hits: &Vec<DictionaryEntry>) -> (res: String)
    ensures
        exists|tss: Seq<Seq<TranslationView>>|
            #[trigger] listings_of(tss, entry_views(hits@)) && renders_all(
                res@,
                hits_template(entry_views(hits@), tss),
            ),
{
    let ghost hv = entry_views(hits@);
    let mut res = String::new();
    let ghost mut tss: Seq<Seq<TranslationView>> = Seq::empty();
    proof {
        lemma_renders_empty();
        assert(hv.take(0) =~= Seq::<DictionaryEntryView>::empty());
    }
    for i in 0..hits.len()
        invariant
            hv == entry_views(hits@),
            listings_of(tss, hv.take(i as int)),
            renders_all(res@, hits_template(hv.take(i as int), tss)),
    {
        let text = hits[i].to_pretty_string();
        let ghost ts = choose|ts: Seq<TranslationView>|
            #[trigger] is_translation_listing(ts, hits@[i as int]@.translations) && renders_all(
                text@,
                entry_template(hits@[i as int]@, ts),
            );
        let ghost before = hits_template(hv.take(i as int), tss);
        let res1 = cat(res, text.as_str(), Ghost(before), Ghost(entry_template(hv[i as int], ts)));
        proof {
            lemma_renders_plain(newline());
        }
        res = cat(
            res1,
            newline_string().as_str(),
            Ghost(before + entry_template(hv[i as int], ts)),
            Ghost(crate::entities::dictionary_entry::newline_template()),
        );
        proof {
            let old_tss = tss;
            tss = tss.push(ts);
            let taken = hv.take(i + 1);
            assert(taken.drop_last() =~= hv.take(i as int));
            assert(tss.drop_last() =~= old_tss);
            assert(hits_template(taken, tss) == before + entry_template(hv[i as int], ts) + seq![
                Piece::Plain(newline()),
            ]);
            assert forall|j: int| 0 <= j < taken.len() implies is_translation_listing(
                #[trigger] tss[j],
                taken[j].translations,
            ) by {
                if j < i {
                    assert(tss[j] == old_tss[j]);
                }
            }
        }
    }
    assert(hv.take(hits@.len() as int) =~= hv);
    res
}

/// A result as it is displayed: the suggestion when there is one, then the
/// entries.
pub open spec fn result_template(
    did_you_mean: Option<DidYouMean>,
    hits: Seq<DictionaryEntryView>,
    tss: Seq<Seq<TranslationView>>,
) -> Seq<Piece> {
    (match did_you_mean {
        Some(d) => did_you_mean_template(d),
        None => Seq::empty(),
    }) + hits_template(hits, tss)
}

/// The suggestion when there is one, then the entries, formatted.
pub fn format_result(did_you_mean: &Option<DidYouMean>, hits: &Vec<DictionaryEntry>) -> (res: String)
    ensures
        exists|tss: Seq<Seq<TranslationView>>|
            #[trigger] listings_of(tss, entry_views(hits@)) && renders_all(
                res@,
                result_template(*did_you_mean, entry_views(hits@), tss),
            ),
{
    let formatted_hits = format_hits(hits);
    let ghost tss = choose|tss: Seq<Seq<TranslationView>>|
        #[trigger] listings_of(tss, entry_views(hits@)) && renders_all(
            formatted_hits@,
            hits_template(entry_views(hits@), tss),
        );
    match did_you_mean {
        Some(d) => {
            let banner = d.to_string();
            let res = cat(
                banner,
                formatted_hits.as_str(),
                Ghost(did_you_mean_template(*d)),
                Ghost(hits_template(entry_views(hits@), tss)),
            );
            res
        },
        None => {
            assert(Seq::<Piece>::empty() + hits_template(entry_views(hits@), tss)
                =~= hits_template(entry_views(hits@), tss));
            formatted_hits
        },
    }
}

impl DictionaryResult {
    /// The result as it is displayed.
    pub fn to_string(&self) -> (res: String)
        ensures
            exists|tss: Seq<Seq<TranslationView>>|
                #[trigger] listings_of(tss, entry_views(self.hits@)) && renders_all(
                    res@,
                    result_template(self.did_you_mean, entry_views(self.hits@), tss),
                ),
    {
        format_result(&self.did_you_mean, &self.hits)
    }
}

} // verus!
