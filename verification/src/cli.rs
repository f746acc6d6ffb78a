//! The decisions of the command line tools: which language and file to use,
//! when the cache answers, which result stands for a lookup, and how a
//! result is put together from what the extensions formatted.
use vstd::prelude::*;
use crate::entities::dictionary_entry::{DictionaryEntry, DictionaryEntryView, TranslationView,
    entry_template, newline_template, is_translation_listing};
use crate::entities::result::{DictionaryResult, DidYouMean, did_you_mean_template, entry_views,
    listings_of, did_you_mean_banner, banner_template, format_hits, hits_template};
use crate::exhaustive_search::SearchResult;
use crate::language::{Language, language_code, language_of_code, default_language};
use crate::render::{Piece, renders_all, join_pieces, cat, plain, lemma_renders_plain,
    lemma_renders_join, lemma_renders_concat};
use crate::text::{Join, concat, newline, newline_string, views};

verus! {

/// The entries cached for a word.
#[derive(Clone, Debug)]
pub struct CachedDbEntry {
    pub entries: Vec<DictionaryEntry>,
}

/// The cached entries answer a lookup when there are at least as many as
/// the results asked for.
pub fn evaluate_cache(cached: Option<Vec<DictionaryEntry>>, max_results: usize) -> (res: Option<
    Vec<DictionaryEntry>,
>)
    ensures
        match cached {
            Some(entries) => if entries@.len() < max_results {
                res.is_none()
            } else {
                res == Some(entries)
            },
            None => res.is_none(),
        },
{
    match cached {
        Some(result) => {
            if result.len() < max_results {
                None
            } else {
                Some(result)
            }
        },
        None => None,
    }
}

/// Whether the entries found by a search go to the cache: exactly when it
/// found exact matches (the matches themselves are what is cached).
pub fn cache_update(full_matches: &Vec<DictionaryEntry>) -> (res: bool)
    ensures
        res == (full_matches@.len() > 0),
{
    full_matches.len() > 0
}

/// The language asked for by its code: the default language when the code
/// is not supported, English when none is given.
pub fn get_language(language: &Option<String>) -> (res: Language)
    ensures
        res == match language {
            Some(code) => match language_of_code(code@) {
                Some(l) => l,
                None => default_language(),
            },
            None => Language::EN,
        },
{
    if let Some(language) = language {
        return Language::from_str_or_default(language.as_str());
    }
    Language::EN
}

/// The path of the dictionary: the path given; the directory of the
/// partitioned dictionary when a word is searched in it; or else the file
/// of the language in the dictionary directory.
pub fn get_db_path(
    path: Option<String>,
    language: &Option<String>,
    partitioned: bool,
    search_term: &Option<String>,
    dictionary_dir: &str,
) -> (res: String)
    ensures
        res@ == match path {
            Some(p) => p@,
            None => if partitioned && search_term.is_some() {
                dictionary_dir@ + "/partitioned"@
            } else {
                dictionary_dir@ + "/wiktionary-"@ + language_code(
                    match language {
                        Some(code) => match language_of_code(code@) {
                            Some(l) => l,
                            None => default_language(),
                        },
                        None => Language::EN,
                    },
                ) + ".json"@
            },
        },
{
    if let Some(path) = path {
        return path;
    }
    if partitioned && search_term.is_some() {
        return concat(dictionary_dir, "/partitioned");
    }
    let code = get_language(language).value();
    concat(concat(concat(dictionary_dir, "/wiktionary-").as_str(), code.as_str()).as_str(), ".json")
}

/// The results that the command line shows.
#[derive(Clone, Debug)]
pub enum WiktionaryResult {
    DictionaryResult(DictionaryResult),
}

/// The result of a lookup that found entries for the term itself; nothing
/// when it found none.
pub fn exact_result(term: &str, hits: Vec<DictionaryEntry>) -> (res: Option<DictionaryResult>)
    ensures
        hits@.len() == 0 ==> res.is_none(),
        hits@.len() > 0 ==> (res matches Some(r) && r.word@ == term@ && r.did_you_mean.is_none()
            && r.hits == hits),
{
    if hits.len() == 0 {
        return None;
    }
    Some(DictionaryResult { word: term.to_owned(), did_you_mean: None, hits })
}

/// The result of a lookup that found entries for a suggestion instead of
/// the term; nothing when the suggestion has no entries either.
pub fn alternative_result(term: &str, suggestion: String, hits: Vec<DictionaryEntry>) -> (res:
    Option<DictionaryResult>)
    ensures
        hits@.len() == 0 ==> res.is_none(),
        hits@.len() > 0 ==> (res matches Some(r) && r.word@ == term@ && r.hits == hits && (
        r.did_you_mean matches Some(d) && d.searched_for@ == term@ && d.suggestion == suggestion)),
{
    if hits.len() == 0 {
        return None;
    }
    Some(
        DictionaryResult {
            word: term.to_owned(),
            did_you_mean: Some(DidYouMean { searched_for: term.to_owned(), suggestion }),
            hits,
        },
    )
}

/// The result of an exhaustive search of the dictionary for a term: its
/// exact matches when there are any; else the closest entry, as a
/// suggestion; else no entries.
pub fn exhaustive_result(term: &str, search_result: SearchResult) -> (res: DictionaryResult)
    ensures
        res.word@ == term@,
        search_result.full_matches@.len() > 0 ==> res.did_you_mean.is_none() && res.hits
            == search_result.full_matches,
        search_result.full_matches@.len() == 0 ==> match search_result.did_you_mean {
            Some(closest) => (res.did_you_mean matches Some(d) && d.searched_for@ == term@
                && d.suggestion == closest.word) && res.hits@ == seq![closest],
            None => res.did_you_mean.is_none() && res.hits@.len() == 0,
        },
{
    let SearchResult { full_matches, did_you_mean, distance: _ } = search_result;
    if full_matches.len() > 0 {
        return DictionaryResult { word: term.to_owned(), did_you_mean: None, hits: full_matches };
    }
    match did_you_mean {
        Some(closest) => {
            let suggestion = DidYouMean { searched_for: term.to_owned(), suggestion: closest.word.clone() };
            let mut hits: Vec<DictionaryEntry> = Vec::new();
            hits.push(closest);
            DictionaryResult { word: term.to_owned(), did_you_mean: Some(suggestion), hits }
        },
        None => DictionaryResult { word: term.to_owned(), did_you_mean: None, hits: Vec::new() },
    }
}

/// The result that shows an entry drawn at random.
pub fn random_result(hit: DictionaryEntry) -> (res: DictionaryResult)
    ensures
        res.word == hit.word,
        res.did_you_mean.is_none(),
        res.hits@ == seq![hit],
{
    let word = hit.word.clone();
    let mut hits: Vec<DictionaryEntry> = Vec::new();
    hits.push(hit);
    DictionaryResult { word, did_you_mean: None, hits }
}

/// The parts of a displayed result: the suggestion (as an extension
/// formatted it, or else as it is displayed), then the entries (as the
/// extensions formatted them, or else each as it is displayed, with its
/// translations listed as in `tss`).
pub open spec fn result_parts(
    did_you_mean: Option<DidYouMean>,
    formatted_banner: Option<Seq<char>>,
    hits: Seq<DictionaryEntryView>,
    formatted_hits: Option<Seq<Seq<char>>>,
    tss: Seq<Seq<TranslationView>>,
) -> Seq<Seq<Piece>> {
    (match did_you_mean {
        Some(d) => seq![
            match formatted_banner {
                Some(b) => seq![Piece::Plain(b)],
                None => did_you_mean_template(d),
            },
        ],
        None => Seq::empty(),
    }) + match formatted_hits {
        Some(f) => Seq::new(f.len(), |i: int| seq![Piece::Plain(f[i])]),
        None => Seq::new(hits.len(), |i: int| entry_template(hits[i], tss[i])),
    }
}

/// A dictionary result as it is displayed, one part per line: the
/// suggestion and the entries, each as the extensions formatted it when they
/// did.
pub fn fmt_dictionary_result(
    dictionary_result: &DictionaryResult,
    formatted_banner: Option<String>,
    formatted_hits: Option<Vec<String>>,
) -> (res: String)
    ensures
        exists|tss: Seq<Seq<TranslationView>>|
            #![trigger listings_of(tss, entry_views(dictionary_result.hits@))]
            (formatted_hits.is_none() ==> listings_of(
                tss,
                entry_views(dictionary_result.hits@),
            )) && renders_all(
                res@,
                join_pieces(
                    result_parts(
                        dictionary_result.did_you_mean,
                        match formatted_banner {
                            Some(b) => Some(b@),
                            None => None,
                        },
                        entry_views(dictionary_result.hits@),
                        match formatted_hits {
                            Some(f) => Some(views(f@)),
                            None => None,
                        },
                        tss,
                    ),
                    newline_template(),
                ),
            ),
{
    let ghost hv = entry_views(dictionary_result.hits@);
    let mut formatted: Vec<String> = Vec::new();
    let ghost mut parts: Seq<Seq<Piece>> = Seq::empty();
    let ghost fb = match formatted_banner {
        Some(ref b) => Some(b@),
        None => None::<Seq<char>>,
    };
    let ghost fh = match formatted_hits {
        Some(ref f) => Some(views(f@)),
        None => None::<Seq<Seq<char>>>,
    };
    if let Some(did_you_mean) = &dictionary_result.did_you_mean {
        match formatted_banner {
            Some(banner) => {
                proof {
                    lemma_renders_plain(banner@);
                    parts = parts.push(seq![Piece::Plain(banner@)]);
                }
                formatted.push(banner);
            },
            None => {
                proof {
                    parts = parts.push(did_you_mean_template(*did_you_mean));
                }
                formatted.push(did_you_mean.to_string());
            },
        }
    }
    let ghost head = parts;
    let ghost n_head = formatted@.len();
    let ghost mut tss: Seq<Seq<TranslationView>> = Seq::new(hv.len(), |i: int| Seq::empty());
    match formatted_hits {
        Some(hits) => {
            for i in 0..hits.len()
                invariant
                    formatted@.len() == n_head + i,
                    parts.len() == formatted@.len(),
                    parts == head + Seq::new(i as nat, |k: int| seq![Piece::Plain(hits@[k]@)]),
                    forall|k: int| 0 <= k < formatted@.len() ==> renders_all(#[trigger] formatted@[k]@, parts[k]),
            {
                proof {
                    lemma_renders_plain(hits@[i as int]@);
                    assert(head + Seq::new((i + 1) as nat, |k: int| seq![Piece::Plain(hits@[k]@)])
                        =~= (head + Seq::new(i as nat, |k: int| seq![Piece::Plain(hits@[k]@)])).push(
                        seq![Piece::Plain(hits@[i as int]@)],
                    ));
                    parts = parts.push(seq![Piece::Plain(hits@[i as int]@)]);
                }
                formatted.push(hits[i].clone());
            }
            proof {
                assert(Seq::new(hits@.len(), |k: int| seq![Piece::Plain(hits@[k]@)]) =~= Seq::new(
                    views(hits@).len(),
                    |k: int| seq![Piece::Plain(views(hits@)[k])],
                ));
            }
        },
        None => {
            let hits = &dictionary_result.hits;
            for i in 0..hits.len()
                invariant
                    hv == entry_views(hits@),
                    formatted@.len() == n_head + i,
                    parts.len() == formatted@.len(),
                    tss.len() == hv.len(),
                    parts == head + Seq::new(i as nat, |k: int| entry_template(hv[k], tss[k])),
                    forall|k: int| 0 <= k < i ==> is_translation_listing(#[trigger] tss[k], hv[k].translations),
                    forall|k: int| 0 <= k < formatted@.len() ==> renders_all(#[trigger] formatted@[k]@, parts[k]),
            {
                let text = hits[i].to_pretty_string();
                proof {
                    let ts = choose|ts: Seq<TranslationView>|
                        #[trigger] is_translation_listing(ts, hits@[i as int]@.translations)
                            && renders_all(text@, entry_template(hits@[i as int]@, ts));
                    let old_tss = tss;
                    tss = tss.update(i as int, ts);
                    assert forall|k: int| 0 <= k < i + 1 implies is_translation_listing(
                        #[trigger] tss[k],
                        hv[k].translations,
                    ) by {
                        if k < i {
                            assert(tss[k] == old_tss[k]);
                        }
                    }
                    assert(Seq::new(i as nat, |k: int| entry_template(hv[k], old_tss[k])) =~= Seq::new(
                        i as nat,
                        |k: int| entry_template(hv[k], tss[k]),
                    ));
                    assert(head + Seq::new((i + 1) as nat, |k: int| entry_template(hv[k], tss[k]))
                        =~= (head + Seq::new(i as nat, |k: int| entry_template(hv[k], tss[k]))).push(
                        entry_template(hv[i as int], ts),
                    ));
                    parts = parts.push(entry_template(hv[i as int], ts));
                }
                formatted.push(text);
            }
        },
    }
    proof {
        let want = result_parts(dictionary_result.did_you_mean, fb, hv, fh, tss);
        assert(parts =~= want);
        lemma_renders_plain(newline());
        assert forall|k: int| 0 <= k < views(formatted@).len() implies renders_all(
            #[trigger] views(formatted@)[k],
            parts[k],
        ) by {
            assert(renders_all(formatted@[k]@, parts[k]));
        }
        lemma_renders_join(views(formatted@), parts, newline(), newline_template());
    }
    let res = newline_string().join(formatted);
    proof {
        if fh.is_none() {
            assert(listings_of(tss, hv));
        }
        assert(fb == match formatted_banner {
            Some(b) => Some(b@),
            None => None,
        });
        assert(fh == match formatted_hits {
            Some(f) => Some(views(f@)),
            None => None,
        });
        assert((formatted_hits.is_none() ==> listings_of(tss, entry_views(dictionary_result.hits@)))
            && renders_all(
            res@,
            join_pieces(
                result_parts(
                    dictionary_result.did_you_mean,
                    match formatted_banner {
                        Some(b) => Some(b@),
                        None => None,
                    },
                    entry_views(dictionary_result.hits@),
                    match formatted_hits {
                        Some(f) => Some(views(f@)),
                        None => None,
                    },
                    tss,
                ),
                newline_template(),
            ),
        ));
        assert(exists|tss: Seq<Seq<TranslationView>>|
            #![trigger listings_of(tss, entry_views(dictionary_result.hits@))]
            (formatted_hits.is_none() ==> listings_of(
                tss,
                entry_views(dictionary_result.hits@),
            )) && renders_all(
                res@,
                join_pieces(
                    result_parts(
                        dictionary_result.did_you_mean,
                        match formatted_banner {
                            Some(b) => Some(b@),
                            None => None,
                        },
                        entry_views(dictionary_result.hits@),
                        match formatted_hits {
                            Some(f) => Some(views(f@)),
                            None => None,
                        },
                        tss,
                    ),
                    newline_template(),
                ),
            ));
    }
    res
}

/// The view of an optional entry.
pub open spec fn opt_entry_view(entry: Option<DictionaryEntry>) -> Option<DictionaryEntryView> {
    match entry {
        Some(e) => Some(e@),
        None => None,
    }
}

/// What the command line prints for a search: when nothing matched
/// exactly, the suggestion (the banner and its entry, with its translations
/// listed as `ts`) or that there are no results; then the exact matches.
pub open spec fn search_result_template(
    term: Seq<char>,
    did_you_mean: Option<DictionaryEntryView>,
    full_matches: Seq<DictionaryEntryView>,
    ts: Seq<TranslationView>,
    tss: Seq<Seq<TranslationView>>,
) -> Seq<Piece> {
    (if full_matches.len() == 0 {
        match did_you_mean {
            Some(r) => banner_template(term, r.word) + entry_template(r, ts) + newline_template(),
            None => seq![Piece::Plain("No results"@ + newline())],
        }
    } else {
        Seq::empty()
    }) + hits_template(full_matches, tss)
}

/// What the command line prints for a search.
pub fn format_search_result(term: &str, search_result: &SearchResult) -> (res: String)
    ensures
        exists|ts: Seq<TranslationView>, tss: Seq<Seq<TranslationView>>|
            #![trigger search_result_template(term@, opt_entry_view(search_result.did_you_mean), entry_views(search_result.full_matches@), ts, tss)]
            (search_result.full_matches@.len() == 0 && search_result.did_you_mean is Some
                ==> is_translation_listing(ts, search_result.did_you_mean->0@.translations))
                && listings_of(tss, entry_views(search_result.full_matches@)) && renders_all(
                res@,
                search_result_template(
                    term@,
                    opt_entry_view(search_result.did_you_mean),
                    entry_views(search_result.full_matches@),
                    ts,
                    tss,
                ),
            ),
{
    let ghost dv = opt_entry_view(search_result.did_you_mean);
    let ghost fm = entry_views(search_result.full_matches@);
    let matches = format_hits(&search_result.full_matches);
    let ghost tss = choose|tss: Seq<Seq<TranslationView>>|
        #[trigger] listings_of(tss, fm) && renders_all(matches@, hits_template(fm, tss));
    let ghost mut ts: Seq<TranslationView> = Seq::empty();
    let ghost mut head: Seq<Piece> = Seq::empty();
    let mut res = String::new();
    proof {
        crate::render::lemma_renders_empty();
    }
    if search_result.full_matches.len() == 0 {
        match &search_result.did_you_mean {
            Some(r) => {
                let banner = did_you_mean_banner(term, r.word.as_str());
                let text = r.to_pretty_string();
                proof {
                    ts = choose|ts: Seq<TranslationView>|
                        #[trigger] is_translation_listing(ts, r@.translations) && renders_all(
                            text@,
                            entry_template(r@, ts),
                        );
                    lemma_renders_plain(newline());
                }
                let part = cat(
                    banner,
                    text.as_str(),
                    Ghost(banner_template(term@, r@.word)),
                    Ghost(entry_template(r@, ts)),
                );
                res = cat(
                    part,
                    newline_string().as_str(),
                    Ghost(banner_template(term@, r@.word) + entry_template(r@, ts)),
                    Ghost(newline_template()),
                );
                proof {
                    head = banner_template(term@, r@.word) + entry_template(r@, ts)
                        + newline_template();
                }
            },
            None => {
                res = concat("No results", newline_string().as_str());
                proof {
                    lemma_renders_plain(res@);
                    head = seq![Piece::Plain("No results"@ + newline())];
                }
            },
        }
    }
    let res = cat(res, matches.as_str(), Ghost(head), Ghost(hits_template(fm, tss)));
    proof {
        assert(head + hits_template(fm, tss) =~= search_result_template(term@, dv, fm, ts, tss));
        assert((search_result.full_matches@.len() == 0 && search_result.did_you_mean is Some
            ==> is_translation_listing(ts, search_result.did_you_mean->0@.translations))
            && listings_of(tss, entry_views(search_result.full_matches@)) && renders_all(
            res@,
            search_result_template(term@, dv, fm, ts, tss),
        ));
    }
    res
}

} // verus!
