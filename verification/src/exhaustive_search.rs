//! The exhaustive search through the entries of a dictionary file: exact
//! matches of a word, and the closest entry as a suggestion.
use vstd::prelude::*;
use crate::distance::{edit_distance, levenshtein, spec_to_uppercase, to_uppercase};
use crate::entities::dictionary_entry::{DictionaryEntry, DictionaryEntryView};
use crate::entities::result::entry_views;

verus! {

/// The distance between a word and the searched term, with or without
/// regard to case.
pub open spec fn word_distance(word: Seq<char>, term: Seq<char>, case_insensitive: bool) -> nat {
    if case_insensitive {
        levenshtein(spec_to_uppercase(word), spec_to_uppercase(term))
    } else {
        levenshtein(word, term)
    }
}

/// The distance between an entry's word and the searched term.
pub open spec fn entry_distance(e: DictionaryEntryView, term: Seq<char>, case_insensitive: bool) -> nat {
    word_distance(e.word, term, case_insensitive)
}

/// The entries whose word matches the term exactly, in order.
pub open spec fn exact_matches(
    entries: Seq<DictionaryEntryView>,
    term: Seq<char>,
    case_insensitive: bool,
) -> Seq<DictionaryEntryView>
    decreases entries.len(),
{
    if entries.len() == 0 {
        Seq::empty()
    } else {
        let before = exact_matches(entries.drop_last(), term, case_insensitive);
        if entry_distance(entries.last(), term, case_insensitive) == 0 {
            before.push(entries.last())
        } else {
            before
        }
    }
}

/// The first `max` items of `s`: all of them when there are no more.
pub open spec fn capped<T>(s: Seq<T>, max: nat) -> Seq<T> {
    if s.len() <= max {
        s
    } else {
        s.take(max as int)
    }
}

/// Entry `j` is the first of `entries` whose distance to the term is the
/// least of all, and that distance is below `usize::MAX`.
pub open spec fn is_first_closest(
    entries: Seq<DictionaryEntryView>,
    j: int,
    term: Seq<char>,
    case_insensitive: bool,
) -> bool {
    &&& 0 <= j < entries.len()
    &&& entry_distance(entries[j], term, case_insensitive) < usize::MAX
    &&& forall|i: int|
        0 <= i < entries.len() ==> entry_distance(#[trigger] entries[i], term, case_insensitive)
            >= entry_distance(entries[j], term, case_insensitive)
    &&& forall|i: int|
        0 <= i < j ==> entry_distance(#[trigger] entries[i], term, case_insensitive)
            > entry_distance(entries[j], term, case_insensitive)
}

/// The number of entries that the search reads: up to and including the one
/// with which the exact matches reach `max_results` (the first one when that
/// is zero), or all of them.
pub open spec fn scanned_from(
    entries: Seq<DictionaryEntryView>,
    term: Seq<char>,
    case_insensitive: bool,
    max_results: usize,
    i: nat,
) -> nat
    decreases entries.len() - i,
{
    if i >= entries.len() {
        entries.len()
    } else if exact_matches(entries.take((i + 1) as int), term, case_insensitive).len() >= max_results {
        i + 1
    } else {
        scanned_from(entries, term, case_insensitive, max_results, i + 1)
    }
}

/// The number of entries that the search reads.
pub open spec fn scanned(
    entries: Seq<DictionaryEntryView>,
    term: Seq<char>,
    case_insensitive: bool,
    max_results: usize,
) -> nat {
    scanned_from(entries, term, case_insensitive, max_results, 0)
}

/// The outcome of a search: the exact matches and the closest entry.
#[derive(Clone, Debug)]
pub struct SearchResult {
    pub full_matches: Vec<DictionaryEntry>,
    pub did_you_mean: Option<DictionaryEntry>,
    pub distance: usize,
}

/// The exact matches `matches`, the suggestion `did_you_mean` and the
/// distance `distance` are the outcome of searching `seen` for `term`: the
/// first `max_results` matches in order, the first closest entry (none when every entry is at
/// distance `usize::MAX` or more) and its distance (`usize::MAX` when there
/// is none).
pub open spec fn is_outcome(
    matches: Seq<DictionaryEntryView>,
    did_you_mean: Option<DictionaryEntry>,
    distance: usize,
    seen: Seq<DictionaryEntryView>,
    term: Seq<char>,
    case_insensitive: bool,
    max_results: usize,
) -> bool {
    &&& matches == capped(exact_matches(seen, term, case_insensitive), max_results as nat)
    &&& match did_you_mean {
        Some(d) => {
            &&& exists|j: int|
                #[trigger] is_first_closest(seen, j, term, case_insensitive) && d@ == seen[j]
            &&& distance == entry_distance(d@, term, case_insensitive)
        },
        None => {
            &&& forall|i: int|
                0 <= i < seen.len() ==> entry_distance(#[trigger] seen[i], term, case_insensitive)
                    >= usize::MAX
            &&& distance == usize::MAX
        },
    }
}

/// `result` is the outcome of searching `seen` for `term`, keeping at most
/// `max_results` matches.
pub open spec fn describes(
    result: SearchResult,
    seen: Seq<DictionaryEntryView>,
    term: Seq<char>,
    case_insensitive: bool,
    max_results: usize,
) -> bool {
    is_outcome(
        entry_views(result.full_matches@),
        result.did_you_mean,
        result.distance,
        seen,
        term,
        case_insensitive,
        max_results,
    )
}

/// The distance between a word and the term, with or without regard to
/// case.
pub fn levenshtein_distance(search_term: &str, word: &str, case_insensitive: bool) -> (res: usize)
    ensures
        res == word_distance(search_term@, word@, case_insensitive),
        case_insensitive ==> res == levenshtein(
            spec_to_uppercase(search_term@),
            spec_to_uppercase(word@),
        ),
        !case_insensitive ==> res == levenshtein(search_term@, word@),
{
    if case_insensitive {
        edit_distance(to_uppercase(search_term).as_str(), to_uppercase(word).as_str())
    } else {
        edit_distance(search_term, word)
    }
}

/// The search, entry by entry: its outcome so far, the least distance so
/// far, and the entries seen.
pub struct SearchWorker {
    term: String,
    max_results: usize,
    case_insensitive: bool,
    result: SearchResult,
    min_distance: usize,
    started: bool,
    seen: Ghost<Seq<DictionaryEntryView>>,
}

impl SearchWorker {
    /// The entries seen so far.
    pub closed spec fn seen(&self) -> Seq<DictionaryEntryView> {
        self.seen@
    }

    /// The searched term.
    pub closed spec fn term(&self) -> Seq<char> {
        self.term@
    }

    /// Whether the search ignores case.
    pub closed spec fn case_insensitive(&self) -> bool {
        self.case_insensitive
    }

    /// The number of exact matches after which the search stops.
    pub closed spec fn max_results(&self) -> usize {
        self.max_results
    }

    /// The outcome so far.
    pub closed spec fn result(&self) -> SearchResult {
        self.result
    }

    /// The worker's state agrees with the entries it has seen.
    pub closed spec fn wf(&self) -> bool {
        &&& describes(self.result, self.seen@, self.term@, self.case_insensitive, self.max_results)
        &&& self.min_distance == self.result.distance
        &&& self.started == (self.seen@.len() > 0)
    }

    /// A search for `term` that has seen nothing yet.
    pub fn new(term: String, max_results: usize, case_insensitive: bool) -> (res: SearchWorker)
        ensures
            res.wf(),
            res.seen() == Seq::<DictionaryEntryView>::empty(),
            res.term() == term@,
            res.max_results() == max_results,
            res.case_insensitive() == case_insensitive,
    {
        let res = SearchWorker {
            term,
            max_results,
            case_insensitive,
            result: SearchResult { full_matches: Vec::new(), did_you_mean: None, distance: usize::MAX },
            min_distance: usize::MAX,
            started: false,
            seen: Ghost(Seq::empty()),
        };
        assert(entry_views(res.result.full_matches@) =~= Seq::<DictionaryEntryView>::empty());
        res
    }

    /// Whether the search is done: after an entry, the exact matches have
    /// reached the maximal number of results.
    pub fn is_done(&self) -> (res: bool)
        requires
            self.wf(),
        ensures
            res == (self.seen().len() > 0 && exact_matches(
                self.seen(),
                self.term(),
                self.case_insensitive(),
            ).len() >= self.max_results()),
    {
        assert(entry_views(self.result.full_matches@).len() == self.result.full_matches@.len());
        self.started && self.result.full_matches.len() == self.max_results
    }

    /// Takes the next entry into account.
    pub fn evaluate(&mut self, entry: DictionaryEntry)
        requires
            old(self).wf(),
        ensures
            final(self).wf(),
            final(self).seen() == old(self).seen().push(entry@),
            final(self).term() == old(self).term(),
            final(self).max_results() == old(self).max_results(),
            final(self).case_insensitive() == old(self).case_insensitive(),
    {
        let ghost entry_view = entry@;
        let min_distance = evaluate_entry(
            &mut self.result,
            self.term.as_str(),
            entry,
            self.case_insensitive,
            self.max_results,
            self.min_distance,
            Ghost(self.seen@),
        );
        self.min_distance = min_distance;
        self.started = true;
        self.seen = Ghost(self.seen@.push(entry_view));
    }

    /// The outcome of the search.
    pub fn into_result(self) -> (res: SearchResult)
        requires
            self.wf(),
        ensures
            res == self.result(),
            describes(res, self.seen(), self.term(), self.case_insensitive(), self.max_results()),
    {
        self.result
    }
}

/// Takes an entry into account: it is kept as an exact match when its
/// distance is zero and fewer than `max_results` matches are kept, and it is
/// the suggestion when it is closer than all before it. Returns the least
/// distance seen.
fn evaluate_entry(
    search_result: &mut SearchResult,
    term: &str,
    json: DictionaryEntry,
    case_insensitive: bool,
    max_results: usize,
    min_distance: usize,
    Ghost(seen): Ghost<Seq<DictionaryEntryView>>,
) -> (res: usize)
    requires
        describes(*old(search_result), seen, term@, case_insensitive, max_results),
        min_distance == old(search_result).distance,
    ensures
        describes(*final(search_result), seen.push(json@), term@, case_insensitive, max_results),
        res == final(search_result).distance,
{
    let ghost s = seen.push(json@);
    let ghost old_result = *search_result;
    let distance = levenshtein_distance(json.word.as_str(), term, case_insensitive);
    assert(s.drop_last() =~= seen);
    let ghost old_matches = exact_matches(seen, term@, case_insensitive);
    if distance == 0 && search_result.full_matches.len() < max_results {
        search_result.full_matches.push(json.duplicate());
    }
    proof {
        let new_matches = exact_matches(s, term@, case_insensitive);
        if distance == 0 {
            assert(new_matches == old_matches.push(json@));
            if old_matches.len() >= max_results {
                assert(new_matches.take(max_results as int) =~= old_matches.take(max_results as int));
            }
        }
    }
    assert(entry_views(search_result.full_matches@) =~= capped(
        exact_matches(s, term@, case_insensitive),
        max_results as nat,
    ));
    if distance < min_distance {
        proof {
            let j = seen.len() as int;
            assert(s[j] == json@);
            assert forall|i: int| 0 <= i < s.len() implies entry_distance(
                #[trigger] s[i],
                term@,
                case_insensitive,
            ) >= entry_distance(s[j], term@, case_insensitive) by {
                if i < j {
                    assert(s[i] == seen[i]);
                    match old_result.did_you_mean {
                        Some(d) => {
                            let k = choose|k: int|
                                #[trigger] is_first_closest(seen, k, term@, case_insensitive)
                                    && d@ == seen[k];
                            assert(entry_distance(seen[i], term@, case_insensitive)
                                >= entry_distance(seen[k], term@, case_insensitive));
                        },
                        None => {
                            assert(entry_distance(seen[i], term@, case_insensitive)
                                >= usize::MAX);
                        },
                    }
                }
            }
            assert(is_first_closest(s, j, term@, case_insensitive));
        }
        search_result.did_you_mean = Some(json);
        search_result.distance = distance;
        return distance;
    }
    proof {
        match old_result.did_you_mean {
            Some(d) => {
                let k = choose|k: int|
                    #[trigger] is_first_closest(seen, k, term@, case_insensitive) && d@ == seen[k];
                assert(s[k] == seen[k]);
                assert forall|i: int| 0 <= i < s.len() implies entry_distance(
                    #[trigger] s[i],
                    term@,
                    case_insensitive,
                ) >= entry_distance(s[k], term@, case_insensitive) by {
                    if i < seen.len() {
                        assert(s[i] == seen[i]);
                    }
                }
                assert forall|i: int| 0 <= i < k implies entry_distance(
                    #[trigger] s[i],
                    term@,
                    case_insensitive,
                ) > entry_distance(s[k], term@, case_insensitive) by {
                    assert(s[i] == seen[i]);
                }
                assert(is_first_closest(s, k, term@, case_insensitive));
            },
            None => {
                assert forall|i: int| 0 <= i < s.len() implies entry_distance(
                    #[trigger] s[i],
                    term@,
                    case_insensitive,
                ) >= usize::MAX by {
                    if i < seen.len() {
                        assert(s[i] == seen[i]);
                    }
                }
            },
        }
    }
    min_distance
}

proof fn lemma_scanned_step(
    entries: Seq<DictionaryEntryView>,
    term: Seq<char>,
    case_insensitive: bool,
    max_results: usize,
    i: nat,
)
    requires
        i < entries.len(),
        forall|k: nat|
            1 <= k <= i ==> exact_matches(#[trigger] entries.take(k as int), term, case_insensitive).len()
                < max_results,
    ensures
        scanned(entries, term, case_insensitive, max_results) == scanned_from(
            entries,
            term,
            case_insensitive,
            max_results,
            i,
        ),
    decreases i,
{
    if i > 0 {
        lemma_scanned_step(entries, term, case_insensitive, max_results, (i - 1) as nat);
        assert(exact_matches(entries.take(i as int), term, case_insensitive).len() < max_results);
    }
}

/// Searches the entries for `term`: collects the exact matches until there
/// are `max_results` of them (stopping after the first entry when that is
/// zero), never keeping more, and keeps as suggestion the first entry
/// closest to the term among those read.
pub fn search(entries: &Vec<DictionaryEntry>, term: String, max_results: usize, case_insensitive: bool) -> (res:
    SearchResult)
    ensures
        describes(
            res,
            entry_views(entries@).take(
                scanned(entry_views(entries@), term@, case_insensitive, max_results) as int,
            ),
            term@,
            case_insensitive,
            max_results,
        ),
        res.full_matches@.len() <= max_results,
{
    let ghost es = entry_views(entries@);
    let ghost t = term@;
    let mut worker = SearchWorker::new(term.clone(), max_results, case_insensitive);
    let n = entries.len();
    let mut i: usize = 0;
    assert(es.take(0) =~= Seq::<DictionaryEntryView>::empty());
    while i < n
        invariant
            n == es.len(),
            es == entry_views(entries@),
            t == term@,
            i <= n,
            worker.wf(),
            worker.term() == t,
            worker.max_results() == max_results,
            worker.case_insensitive() == case_insensitive,
            worker.seen() == es.take(i as int),
            forall|k: nat|
                1 <= k <= i ==> exact_matches(#[trigger] es.take(k as int), t, case_insensitive).len()
                    < max_results,
        decreases n - i,
    {
        let entry = entries[i].duplicate();
        proof {
            assert(entry@ == es[i as int]);
            assert(es.take(i + 1) =~= es.take(i as int).push(es[i as int]));
        }
        worker.evaluate(entry);
        i = i + 1;
        if worker.is_done() {
            proof {
                lemma_scanned_step(es, t, case_insensitive, max_results, (i - 1) as nat);
                assert(es.take(((i - 1) as nat + 1) as int) == es.take(i as int));
                assert(scanned_from(es, t, case_insensitive, max_results, (i - 1) as nat) == i);
                assert(scanned(es, t, case_insensitive, max_results) == i);
                assert(worker.seen() == es.take(i as int));
            }
            let res = worker.into_result();
            assert(entry_views(res.full_matches@).len() == res.full_matches@.len());
            return res;
        }
    }
    proof {
        if n > 0 {
            lemma_scanned_step(es, t, case_insensitive, max_results, (n - 1) as nat);
            assert(es.take(((n - 1) as nat + 1) as int) == es.take(n as int));
            assert(exact_matches(es.take(n as int), t, case_insensitive).len() < max_results);
            assert(scanned_from(es, t, case_insensitive, max_results, n as nat) == n);
            assert(scanned_from(es, t, case_insensitive, max_results, (n - 1) as nat) == n);
        }
        assert(es.take(n as int) =~= es);
    }
    let res = worker.into_result();
    assert(entry_views(res.full_matches@).len() == res.full_matches@.len());
    res
}

} // verus!

verus! {

use crate::distance::lemma_levenshtein_zero;

/// The exact matches are the entries whose word is the term itself (when
/// case is regarded), and they come in the order of the entries.
pub proof fn lemma_exact_matches_are_the_term(
    entries: Seq<DictionaryEntryView>,
    term: Seq<char>,
    i: int,
)
    requires
        0 <= i < exact_matches(entries, term, false).len(),
    ensures
        exact_matches(entries, term, false)[i].word == term,
        entries.contains(exact_matches(entries, term, false)[i]),
    decreases entries.len(),
{
    let m = exact_matches(entries, term, false);
    let before = exact_matches(entries.drop_last(), term, false);
    if i < before.len() {
        lemma_exact_matches_are_the_term(entries.drop_last(), term, i);
        let k = choose|k: int| 0 <= k < entries.drop_last().len() && entries.drop_last()[k] == before[i];
        assert(entries[k] == before[i]);
    } else {
        lemma_levenshtein_zero(entries.last().word, term);
        assert(entries[entries.len() - 1] == entries.last());
    }
}

/// The search reads no more entries than there are, and it reads all of
/// them unless the exact matches reach the maximal number of results.
pub proof fn lemma_scanned_bound(
    entries: Seq<DictionaryEntryView>,
    term: Seq<char>,
    case_insensitive: bool,
    max_results: usize,
    i: nat,
)
    requires
        i <= entries.len(),
    ensures
        scanned_from(entries, term, case_insensitive, max_results, i) <= entries.len(),
        scanned_from(entries, term, case_insensitive, max_results, i) < entries.len() ==> exact_matches(
            entries.take(scanned_from(entries, term, case_insensitive, max_results, i) as int),
            term,
            case_insensitive,
        ).len() >= max_results,
    decreases entries.len() - i,
{
    if i < entries.len() {
        lemma_scanned_bound(entries, term, case_insensitive, max_results, i + 1);
    }
}

/// The pieces of `parts`, one after the other.
pub open spec fn joined<T>(parts: Seq<Seq<T>>) -> Seq<T>
    decreases parts.len(),
{
    if parts.len() == 0 {
        Seq::empty()
    } else {
        joined(parts.drop_last()) + parts.last()
    }
}

/// The exact matches of each result.
pub open spec fn matches_of(results: Seq<SearchResult>) -> Seq<Seq<DictionaryEntry>> {
    results.map_values(|r: SearchResult| r.full_matches@)
}

/// The least distance among the results, `usize::MAX` when there are none.
pub open spec fn least_distance(results: Seq<SearchResult>) -> usize
    decreases results.len(),
{
    if results.len() == 0 {
        usize::MAX
    } else if results.last().distance < least_distance(results.drop_last()) {
        results.last().distance
    } else {
        least_distance(results.drop_last())
    }
}

/// The suggestion of the first result whose distance is below that of all
/// results before it and is the least of all; none when no distance is
/// below `usize::MAX`.
pub open spec fn merged_suggestion(results: Seq<SearchResult>) -> Option<DictionaryEntry>
    decreases results.len(),
{
    if results.len() == 0 {
        None
    } else if results.last().distance < least_distance(results.drop_last()) {
        results.last().did_you_mean
    } else {
        merged_suggestion(results.drop_last())
    }
}

/// Puts together the results of searching the partitions of a dictionary:
/// the first `max_results` of their exact matches taken one after the
/// other, and the suggestion of the result with the least distance (the
/// first of them).
pub fn merge_partition_results(results: Vec<SearchResult>, max_results: usize) -> (res: SearchResult)
    ensures
        res.full_matches@ == capped(joined(matches_of(results@)), max_results as nat),
        res.distance == least_distance(results@),
        res.did_you_mean == merged_suggestion(results@),
{
    let ghost all = results@;
    let mut rest = results;
    let mut full_matches: Vec<DictionaryEntry> = Vec::new();
    let mut did_you_mean: Option<DictionaryEntry> = None;
    let mut min_distance: usize = usize::MAX;
    let ghost mut i: int = 0;
    proof {
        assert(all.take(0) =~= Seq::<SearchResult>::empty());
        assert(matches_of(all.take(0)) =~= Seq::<Seq<DictionaryEntry>>::empty());
        assert(all.skip(0) =~= all);
    }
    while rest.len() > 0
        invariant
            0 <= i <= all.len(),
            rest@ == all.skip(i),
            full_matches@ == joined(matches_of(all.take(i))),
            min_distance == least_distance(all.take(i)),
            did_you_mean == merged_suggestion(all.take(i)),
        decreases rest@.len(),
    {
        let SearchResult { full_matches: mut matches, did_you_mean: suggestion, distance } = rest.remove(0);
        proof {
            assert(all[i] == all.skip(i)[0]);
            assert(all.take(i + 1).drop_last() =~= all.take(i));
            assert(all.take(i + 1).last() == all[i]);
            assert(matches_of(all.take(i + 1)).drop_last() =~= matches_of(all.take(i)));
            assert(matches_of(all.take(i + 1)).last() == all[i].full_matches@);
            assert(all.skip(i + 1) =~= all.skip(i).drop_first());
        }
        if distance < min_distance {
            min_distance = distance;
            did_you_mean = suggestion;
        }
        full_matches.append(&mut matches);
        proof {
            i = i + 1;
        }
    }
    proof {
        assert(all.take(i) =~= all);
    }
    let ghost joined_matches = full_matches@;
    full_matches.truncate(max_results);
    assert(full_matches@ =~= capped(joined_matches, max_results as nat));
    SearchResult { full_matches, did_you_mean, distance: min_distance }
}

/// Capping the first of two pieces before joining them, or the second,
/// changes nothing of the first `max` items of the whole.
pub proof fn lemma_capped_concat<T>(x: Seq<T>, y: Seq<T>, max: nat)
    ensures
        capped(capped(x, max) + y, max) == capped(x + y, max),
        capped(x + capped(y, max), max) == capped(x + y, max),
{
    if x.len() > max {
        assert(capped(x, max) + y =~= x.take(max as int) + y);
        assert((x.take(max as int) + y).take(max as int) =~= x.take(max as int));
        assert((x + y).take(max as int) =~= x.take(max as int));
    }
    if y.len() > max {
        assert(capped(x + y.take(max as int), max) =~= capped(x + y, max));
    }
}

/// The views of the first `max` entries are the first `max` views.
pub proof fn lemma_views_of_capped(s: Seq<DictionaryEntry>, max: nat)
    ensures
        entry_views(capped(s, max)) == capped(entry_views(s), max),
{
    assert(entry_views(capped(s, max)) =~= capped(entry_views(s), max));
}

/// The exact matches of two pieces of entries, one after the other, are
/// the exact matches of the pieces together.
pub proof fn lemma_exact_matches_concat(
    a: Seq<DictionaryEntryView>,
    b: Seq<DictionaryEntryView>,
    term: Seq<char>,
    case_insensitive: bool,
)
    ensures
        exact_matches(a + b, term, case_insensitive) == exact_matches(a, term, case_insensitive)
            + exact_matches(b, term, case_insensitive),
    decreases b.len(),
{
    if b.len() == 0 {
        assert(a + b =~= a);
        assert(exact_matches(a, term, case_insensitive) + Seq::<DictionaryEntryView>::empty()
            =~= exact_matches(a, term, case_insensitive));
    } else {
        lemma_exact_matches_concat(a, b.drop_last(), term, case_insensitive);
        assert((a + b).drop_last() =~= a + b.drop_last());
        assert((a + b).last() == b.last());
        let before = exact_matches(a, term, case_insensitive);
        let rest = exact_matches(b.drop_last(), term, case_insensitive);
        assert((before + rest).push(b.last()) =~= before + rest.push(b.last()));
    }
}

/// When every partition of a dictionary was searched to its end, putting
/// their results together gives what searching the whole dictionary gives:
/// the first `max_results` exact matches in order, the first closest entry
/// and its distance.
pub proof fn lemma_merged_search_of_partitions(
    parts: Seq<Seq<DictionaryEntryView>>,
    results: Seq<SearchResult>,
    term: Seq<char>,
    case_insensitive: bool,
    max_results: usize,
)
    requires
        parts.len() == results.len(),
        forall|i: int|
            0 <= i < parts.len() ==> describes(
                #[trigger] results[i],
                parts[i],
                term,
                case_insensitive,
                max_results,
            ),
    ensures
        is_outcome(
            entry_views(capped(joined(matches_of(results)), max_results as nat)),
            merged_suggestion(results),
            least_distance(results),
            joined(parts),
            term,
            case_insensitive,
            max_results,
        ),
    decreases parts.len(),
{
    let m = max_results as nat;
    if parts.len() == 0 {
        assert(entry_views(capped(joined(matches_of(results)), m)) =~= Seq::<DictionaryEntryView>::empty());
        assert(capped(exact_matches(joined(parts), term, case_insensitive), m) =~= Seq::<DictionaryEntryView>::empty());
    } else {
        let ps = parts.drop_last();
        let rs = results.drop_last();
        assert forall|i: int| 0 <= i < ps.len() implies describes(
            #[trigger] rs[i],
            ps[i],
            term,
            case_insensitive,
            max_results,
        ) by {
            assert(rs[i] == results[i]);
            assert(ps[i] == parts[i]);
        }
        lemma_merged_search_of_partitions(ps, rs, term, case_insensitive, max_results);
        let n = parts.len() - 1;
        assert(describes(results[n], parts[n], term, case_insensitive, max_results));
        let a = joined(ps);
        let b = parts.last();
        let r = results.last();
        assert(r == results[n]);
        assert(b == parts[n]);
        assert(matches_of(results).drop_last() =~= matches_of(rs));
        assert(matches_of(results).last() == r.full_matches@);
        let ma = joined(matches_of(rs));
        assert(joined(matches_of(results)) == ma + r.full_matches@);
        let va = entry_views(ma);
        let vb = entry_views(r.full_matches@);
        assert(entry_views(ma + r.full_matches@) =~= va + vb);
        lemma_views_of_capped(ma + r.full_matches@, m);
        lemma_views_of_capped(ma, m);
        lemma_exact_matches_concat(a, b, term, case_insensitive);
        let ea = exact_matches(a, term, case_insensitive);
        let eb = exact_matches(b, term, case_insensitive);
        assert(capped(va, m) == capped(ea, m));
        assert(vb == capped(eb, m));
        lemma_capped_concat(va, vb, m);
        lemma_capped_concat(ea, vb, m);
        lemma_capped_concat(ea, eb, m);
        assert(entry_views(capped(joined(matches_of(results)), m)) == capped(ea + eb, m));
        let s = a + b;
        let da = least_distance(rs);
        assert forall|i: int| 0 <= i < a.len() implies #[trigger] s[i] == a[i] by {}
        assert forall|i: int| 0 <= i < b.len() implies #[trigger] s[a.len() + i] == b[i] by {}
        if r.distance < da {
            let d = r.did_you_mean->0;
            let j = choose|j: int| #[trigger] is_first_closest(b, j, term, case_insensitive) && d@ == b[j];
            assert forall|i: int| 0 <= i < s.len() implies entry_distance(
                #[trigger] s[i],
                term,
                case_insensitive,
            ) >= entry_distance(s[a.len() + j], term, case_insensitive) by {
                if i >= a.len() {
                    assert(s[i] == b[i - a.len()]);
                } else {
                    assert(s[i] == a[i]);
                    match merged_suggestion(rs) {
                        Some(da_s) => {
                            let k = choose|k: int|
                                #[trigger] is_first_closest(a, k, term, case_insensitive) && da_s@ == a[k];
                            assert(entry_distance(a[i], term, case_insensitive) >= entry_distance(
                                a[k],
                                term,
                                case_insensitive,
                            ));
                        },
                        None => {
                            assert(entry_distance(a[i], term, case_insensitive) >= usize::MAX);
                        },
                    }
                }
            }
            assert forall|i: int| 0 <= i < a.len() + j implies entry_distance(
                #[trigger] s[i],
                term,
                case_insensitive,
            ) > entry_distance(s[a.len() + j], term, case_insensitive) by {
                if i >= a.len() {
                    assert(s[i] == b[i - a.len()]);
                } else {
                    assert(s[i] == a[i]);
                    match merged_suggestion(rs) {
                        Some(da_s) => {
                            let k = choose|k: int|
                                #[trigger] is_first_closest(a, k, term, case_insensitive) && da_s@ == a[k];
                            assert(entry_distance(a[i], term, case_insensitive) >= entry_distance(
                                a[k],
                                term,
                                case_insensitive,
                            ));
                        },
                        None => {
                            assert(entry_distance(a[i], term, case_insensitive) >= usize::MAX);
                        },
                    }
                }
            }
            assert(is_first_closest(s, a.len() + j, term, case_insensitive));
        } else {
            match merged_suggestion(rs) {
                Some(d) => {
                    let k = choose|k: int| #[trigger] is_first_closest(a, k, term, case_insensitive) && d@ == a[k];
                    assert forall|i: int| 0 <= i < s.len() implies entry_distance(
                        #[trigger] s[i],
                        term,
                        case_insensitive,
                    ) >= entry_distance(s[k], term, case_insensitive) by {
                        if i >= a.len() {
                            assert(s[i] == b[i - a.len()]);
                            match r.did_you_mean {
                                Some(db) => {
                                    let m = choose|m: int|
                                        #[trigger] is_first_closest(b, m, term, case_insensitive) && db@ == b[m];
                                    assert(entry_distance(b[i - a.len()], term, case_insensitive)
                                        >= entry_distance(b[m], term, case_insensitive));
                                },
                                None => {
                                    assert(entry_distance(b[i - a.len()], term, case_insensitive)
                                        >= usize::MAX);
                                },
                            }
                        } else {
                            assert(s[i] == a[i]);
                        }
                    }
                    assert forall|i: int| 0 <= i < k implies entry_distance(
                        #[trigger] s[i],
                        term,
                        case_insensitive,
                    ) > entry_distance(s[k], term, case_insensitive) by {
                        assert(s[i] == a[i]);
                    }
                    assert(is_first_closest(s, k, term, case_insensitive));
                },
                None => {
                    assert forall|i: int| 0 <= i < s.len() implies entry_distance(
                        #[trigger] s[i],
                        term,
                        case_insensitive,
                    ) >= usize::MAX by {
                        if i >= a.len() {
                            assert(s[i] == b[i - a.len()]);
                            match r.did_you_mean {
                                Some(db) => {
                                    let m = choose|m: int|
                                        #[trigger] is_first_closest(b, m, term, case_insensitive) && db@ == b[m];
                                    assert(entry_distance(b[i - a.len()], term, case_insensitive)
                                        >= entry_distance(b[m], term, case_insensitive));
                                },
                                None => {},
                            }
                        } else {
                            assert(s[i] == a[i]);
                        }
                    }
                },
            }
        }
    }
}

} // verus!

verus! {

/// An entry matches the term exactly when its word equals the term, and,
/// ignoring case, when the upper cases of the two are equal: a word that
/// differs from the term in letter case only matches ignoring case, and
/// does not match otherwise.
pub proof fn lemma_matching_regards_case_as_asked(word: Seq<char>, term: Seq<char>)
    ensures
        word_distance(word, term, true) == 0 <==> spec_to_uppercase(word) == spec_to_uppercase(term),
        word_distance(word, term, false) == 0 <==> word == term,
{
    crate::distance::lemma_levenshtein_zero(spec_to_uppercase(word), spec_to_uppercase(term));
    crate::distance::lemma_levenshtein_zero(word, term);
}

/// The distance of a word from the term is their edit distance: that of
/// their upper cases when case is ignored, and of the two as they are
/// otherwise.
pub proof fn lemma_distance_is_edit_distance(word: Seq<char>, term: Seq<char>)
    ensures
        word_distance(word, term, true) == levenshtein(spec_to_uppercase(word), spec_to_uppercase(term)),
        word_distance(word, term, false) == levenshtein(word, term),
{
}

proof fn lemma_exact_matches_same_distances(
    entries: Seq<DictionaryEntryView>,
    t1: Seq<char>,
    t2: Seq<char>,
    case_insensitive: bool,
)
    requires
        forall|w: Seq<char>| #[trigger] word_distance(w, t1, case_insensitive) == word_distance(w, t2, case_insensitive),
    ensures
        exact_matches(entries, t1, case_insensitive) == exact_matches(entries, t2, case_insensitive),
    decreases entries.len(),
{
    if entries.len() > 0 {
        lemma_exact_matches_same_distances(entries.drop_last(), t1, t2, case_insensitive);
        assert(word_distance(entries.last().word, t1, case_insensitive) == word_distance(
            entries.last().word,
            t2,
            case_insensitive,
        ));
    }
}

proof fn lemma_scanned_same_distances(
    entries: Seq<DictionaryEntryView>,
    t1: Seq<char>,
    t2: Seq<char>,
    case_insensitive: bool,
    max_results: usize,
    i: nat,
)
    requires
        forall|w: Seq<char>| #[trigger] word_distance(w, t1, case_insensitive) == word_distance(w, t2, case_insensitive),
    ensures
        scanned_from(entries, t1, case_insensitive, max_results, i) == scanned_from(
            entries,
            t2,
            case_insensitive,
            max_results,
            i,
        ),
    decreases entries.len() - i,
{
    if i < entries.len() {
        lemma_exact_matches_same_distances(entries.take((i + 1) as int), t1, t2, case_insensitive);
        lemma_scanned_same_distances(entries, t1, t2, case_insensitive, max_results, i + 1);
    }
}

/// A search that ignores case finds for a term exactly what it finds for
/// the term's upper case (when upper-casing that again changes nothing): it
/// reads as many entries, and a result is its outcome for the one exactly
/// when it is its outcome for the other.
pub proof fn lemma_case_insensitive_search_ignores_case_of_term(
    entries: Seq<DictionaryEntryView>,
    term: Seq<char>,
    max_results: usize,
    result: SearchResult,
)
    requires
        spec_to_uppercase(spec_to_uppercase(term)) == spec_to_uppercase(term),
    ensures
        scanned(entries, term, true, max_results) == scanned(
            entries,
            spec_to_uppercase(term),
            true,
            max_results,
        ),
        describes(result, entries, term, true, max_results) <==> describes(
            result,
            entries,
            spec_to_uppercase(term),
            true,
            max_results,
        ),
{
    let up = spec_to_uppercase(term);
    assert forall|w: Seq<char>| #[trigger] word_distance(w, term, true) == word_distance(w, up, true) by {}
    lemma_scanned_same_distances(entries, term, up, true, max_results, 0);
    lemma_exact_matches_same_distances(entries, term, up, true);
    assert forall|e: DictionaryEntryView| #[trigger] entry_distance(e, term, true) == entry_distance(e, up, true) by {
        assert(word_distance(e.word, term, true) == word_distance(e.word, up, true));
    }
    assert forall|j: int| #[trigger] is_first_closest(entries, j, term, true) == is_first_closest(entries, j, up, true) by {
        assert forall|i: int| 0 <= i < entries.len() implies entry_distance(#[trigger] entries[i], term, true)
            == entry_distance(entries[i], up, true) by {}
    }
    match result.did_you_mean {
        Some(d) => {
            if describes(result, entries, term, true, max_results) {
                let j = choose|j: int| #[trigger] is_first_closest(entries, j, term, true) && d@ == entries[j];
                assert(is_first_closest(entries, j, up, true));
            }
            if describes(result, entries, up, true, max_results) {
                let j = choose|j: int| #[trigger] is_first_closest(entries, j, up, true) && d@ == entries[j];
                assert(is_first_closest(entries, j, term, true));
            }
        },
        None => {
            assert forall|i: int| 0 <= i < entries.len() implies entry_distance(#[trigger] entries[i], term, true)
                == entry_distance(entries[i], up, true) by {}
        },
    }
}

} // verus!

verus! {

/// The suggestion of a search is an entry at the least edit distance from
/// the term among all entries read (comparing upper cases when case is
/// ignored), the first such entry, and the distance reported is its edit
/// distance; without a suggestion, no entry was read.
pub proof fn lemma_suggestion_is_closest_by_edit_distance(
    result: SearchResult,
    seen: Seq<DictionaryEntryView>,
    term: Seq<char>,
    case_insensitive: bool,
    max_results: usize,
)
    requires
        describes(result, seen, term, case_insensitive, max_results),
    ensures
        result.did_you_mean matches Some(d) ==> {
            &&& seen.contains(d@)
            &&& case_insensitive ==> {
                &&& result.distance == levenshtein(spec_to_uppercase(d@.word), spec_to_uppercase(term))
                &&& forall|i: int| 0 <= i < seen.len() ==> levenshtein(
                    spec_to_uppercase(#[trigger] seen[i].word),
                    spec_to_uppercase(term),
                ) >= result.distance
            }
            &&& !case_insensitive ==> {
                &&& result.distance == levenshtein(d@.word, term)
                &&& forall|i: int| 0 <= i < seen.len() ==> levenshtein(#[trigger] seen[i].word, term)
                    >= result.distance
            }
        },
        result.did_you_mean is None ==> forall|i: int| 0 <= i < seen.len() ==> levenshtein(
            if case_insensitive { spec_to_uppercase(#[trigger] seen[i].word) } else { seen[i].word },
            if case_insensitive { spec_to_uppercase(term) } else { term },
        ) >= usize::MAX,
{
    match result.did_you_mean {
        Some(d) => {
            let j = choose|j: int| #[trigger] is_first_closest(seen, j, term, case_insensitive) && d@ == seen[j];
            assert(seen[j] == d@);
            assert forall|i: int| 0 <= i < seen.len() implies entry_distance(#[trigger] seen[i], term, case_insensitive)
                >= result.distance by {}
        },
        None => {
            assert forall|i: int| 0 <= i < seen.len() implies entry_distance(#[trigger] seen[i], term, case_insensitive)
                >= usize::MAX by {}
        },
    }
}

} // verus!
