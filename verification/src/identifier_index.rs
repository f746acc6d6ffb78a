//! The word index (a Sonic search backend): the objects it stores for
//! words, the term sent for suggestions, and the choice of a suggestion
//! among the alternatives that the index offers.
use vstd::prelude::*;
use vstd::string::StringSliceAdditionalSpecFns;
use vstd::utf8::{valid_utf8, decode_utf8, encode_utf8};
use base64::Engine;
use crate::distance::{edit_distance, levenshtein, lemma_levenshtein_zero};
use crate::text::{lex_le, lex_less_or_equal, chars_of, push_char, lemma_lex_total, lemma_lex_transitive};

verus! {

/// The error of `base64` decoding.
#[verifier::external_type_specification]
#[verifier::external_body]
pub struct ExDecodeError(base64::DecodeError);

/// The error of `String::from_utf8`.
#[verifier::external_type_specification]
#[verifier::external_body]
pub struct ExFromUtf8Error(std::string::FromUtf8Error);

/// What the standard base64 engine (with padding) decodes a text into,
/// when it is valid base64.
pub uninterp spec fn spec_base64_decode(s: Seq<char>) -> Option<Seq<u8>>;

/// What the standard base64 engine (with padding) encodes bytes into.
pub uninterp spec fn spec_base64_encode(bytes: Seq<u8>) -> Seq<char>;

/// `base64::engine::general_purpose::STANDARD.decode`. Its result is named
/// by `spec_base64_decode`: the bytes when the text is valid base64, an
/// error otherwise.
#[verifier::external_body]
fn base64_decode(s: &str) -> (res: Result<Vec<u8>, base64::DecodeError>)
    ensures
        res is Ok <==> spec_base64_decode(s@) is Some,
        res matches Ok(v) ==> spec_base64_decode(s@) == Some(v@),
{
    base64::engine::general_purpose::STANDARD.decode(s)
}

/// `base64::engine::general_purpose::STANDARD.encode`. Its result is named
/// by `spec_base64_encode`; decoding it gives the bytes back, as the crate
/// documents of its engines. The crate panics when the length of the
/// encoding overflows `usize`, which the bound on the input rules out.
#[verifier::external_body]
fn base64_encode(bytes: &[u8]) -> (res: String)
    requires
        bytes@.len() <= usize::MAX / 2,
    ensures
        res@ == spec_base64_encode(bytes@),
        spec_base64_decode(res@) == Some(bytes@),
{
    base64::engine::general_purpose::STANDARD.encode(bytes)
}

/// `String::from_utf8`: the text that the bytes encode when they are valid
/// UTF-8, an error otherwise, as its documentation states.
#[verifier::external_body]
fn string_from_utf8(bytes: Vec<u8>) -> (res: Result<String, std::string::FromUtf8Error>)
    ensures
        res is Ok <==> valid_utf8(bytes@),
        res matches Ok(s) ==> s@ == decode_utf8(bytes@),
{
    String::from_utf8(bytes)
}

/// Why an object of the index is not the identifier of a word.
#[derive(Clone, Copy, PartialEq, Eq, Structural, Debug)]
pub enum QueryError {
    /// The object is not valid base64.
    InvalidBase64,
    /// The decoded object is not valid UTF-8.
    InvalidUtf8,
}

/// The word that an object of the index stands for.
pub open spec fn decode_object(object: Seq<char>) -> Result<Seq<char>, QueryError> {
    match spec_base64_decode(object) {
        None => Err(QueryError::InvalidBase64),
        Some(bytes) => if valid_utf8(bytes) {
            Ok(decode_utf8(bytes))
        } else {
            Err(QueryError::InvalidUtf8)
        },
    }
}

/// The words that the objects stand for, or the error of the first object
/// that stands for none.
pub open spec fn decode_objects(objects: Seq<Seq<char>>) -> Result<Seq<Seq<char>>, QueryError>
    decreases objects.len(),
{
    if objects.len() == 0 {
        Ok(Seq::empty())
    } else {
        match decode_object(objects[0]) {
            Err(e) => Err(e),
            Ok(word) => match decode_objects(objects.drop_first()) {
                Err(e) => Err(e),
                Ok(words) => Ok(seq![word] + words),
            },
        }
    }
}

/// The object under which the index stores a word: the base64 encoding of
/// its UTF-8 bytes.
pub fn object_id(word: &str) -> (res: String)
    requires
        encode_utf8(word@).len() <= usize::MAX / 2,
    ensures
        res@ == spec_base64_encode(encode_utf8(word@)),
        decode_object(res@) == Ok::<Seq<char>, QueryError>(word@),
{
    let bytes = word.as_bytes();
    let res = base64_encode(bytes);
    proof {
        vstd::utf8::encode_utf8_valid_utf8(word@);
        vstd::utf8::encode_utf8_decode_utf8(word@);
    }
    res
}

fn decode_one(object: &String) -> (res: Result<String, QueryError>)
    ensures
        match res {
            Ok(s) => decode_object(object@) == Ok::<Seq<char>, QueryError>(s@),
            Err(e) => decode_object(object@) == Err::<Seq<char>, QueryError>(e),
        },
{
    match base64_decode(object.as_str()) {
        Err(_) => Err(QueryError::InvalidBase64),
        Ok(bytes) => match string_from_utf8(bytes) {
            Err(_) => Err(QueryError::InvalidUtf8),
            Ok(s) => Ok(s),
        },
    }
}

/// The words that the objects found by a query stand for.
pub fn query(objects: &Vec<String>) -> (res: Result<Vec<String>, QueryError>)
    ensures
        match res {
            Ok(words) => decode_objects(objects@.map_values(|o: String| o@)) == Ok::<
                Seq<Seq<char>>,
                QueryError,
            >(words@.map_values(|w: String| w@)),
            Err(e) => decode_objects(objects@.map_values(|o: String| o@)) == Err::<
                Seq<Seq<char>>,
                QueryError,
            >(e),
        },
{
    let ghost os = objects@.map_values(|o: String| o@);
    let mut words: Vec<String> = Vec::new();
    let n = objects.len();
    let mut i: usize = 0;
    proof {
        assert(os.skip(0) =~= os);
        match decode_objects(os) {
            Ok(rest) => {
                assert(words@.map_values(|w: String| w@) + rest =~= rest);
            },
            Err(_) => {},
        }
    }
    while i < n
        invariant
            n == os.len(),
            os == objects@.map_values(|o: String| o@),
            i <= n,
            words@.len() == i,
            decode_objects(os) == match decode_objects(os.skip(i as int)) {
                Err(e) => Err(e),
                Ok(rest) => Ok(words@.map_values(|w: String| w@) + rest),
            },
        decreases n - i,
    {
        let ghost suffix = os.skip(i as int);
        assert(suffix[0] == os[i as int]);
        assert(suffix.drop_first() =~= os.skip(i + 1));
        match decode_one(&objects[i]) {
            Err(e) => {
                return Err(e);
            },
            Ok(word) => {
                let ghost before = words@.map_values(|w: String| w@);
                words.push(word);
                proof {
                    let after = words@.map_values(|w: String| w@);
                    assert(after =~= before.push(word@));
                    match decode_objects(os.skip(i + 1)) {
                        Ok(rest) => {
                            assert(before + (seq![word@] + rest) =~= after + rest);
                        },
                        Err(_) => {},
                    }
                }
            },
        }
        i = i + 1;
    }
    assert(os.skip(n as int) =~= Seq::<Seq<char>>::empty());
    assert(words@.map_values(|w: String| w@) + Seq::<Seq<char>>::empty() =~= words@.map_values(
        |w: String| w@,
    ));
    Ok(words)
}

/// The first word of a term: the characters before the first space or
/// hyphen.
pub open spec fn first_word(term: Seq<char>) -> Seq<char>
    decreases term.len(),
{
    if term.len() == 0 || term[0] == ' ' || term[0] == '-' {
        Seq::empty()
    } else {
        seq![term[0]] + first_word(term.drop_first())
    }
}

/// The term for which the index is asked for suggestions: the first word of
/// the search term, since a term with spaces makes the index fail.
pub fn suggest(search_term: &str) -> (res: String)
    ensures
        res@ == first_word(search_term@),
{
    let chars = chars_of(search_term);
    let mut res = String::new();
    let mut i: usize = 0;
    let mut stopped = false;
    assert(search_term@.skip(0) =~= search_term@);
    while !stopped && i < chars.len()
        invariant
            chars@ == search_term@,
            i <= chars@.len(),
            res@ == chars@.take(i as int),
            first_word(search_term@) == res@ + first_word(search_term@.skip(i as int)),
            stopped ==> first_word(search_term@.skip(i as int)) == Seq::<char>::empty(),
        decreases chars@.len() - i, if stopped { 0int } else { 1int },
    {
        let c = chars[i];
        if c == ' ' || c == '-' {
            assert(search_term@.skip(i as int)[0] == c);
            stopped = true;
        } else {
            assert(search_term@.skip(i as int).drop_first() =~= search_term@.skip(i + 1));
            assert(res@ + (seq![c] + first_word(search_term@.skip(i + 1))) =~= res@.push(c)
                + first_word(search_term@.skip(i + 1)));
            push_char(&mut res, c);
            assert(chars@.take(i + 1) =~= chars@.take(i as int).push(c));
            i = i + 1;
        }
    }
    if !stopped {
        assert(search_term@.skip(i as int) =~= Seq::<char>::empty());
    }
    assert(res@ + Seq::<char>::empty() =~= res@);
    res
}

/// The rating of an alternative to the searched term: its distance to the
/// term, where the term itself rates worst.
pub open spec fn rating(term: Seq<char>, alternative: Seq<char>) -> nat {
    if levenshtein(term, alternative) == 0 {
        usize::MAX as nat
    } else {
        levenshtein(term, alternative)
    }
}

/// `a` comes before `b` by rating, and by text between equal ratings.
pub open spec fn rated_before(term: Seq<char>, a: Seq<char>, b: Seq<char>) -> bool {
    rating(term, a) < rating(term, b) || (rating(term, a) == rating(term, b) && lex_le(a, b))
}

/// The suggestion for a term among alternatives: the best rated one.
pub open spec fn is_best_alternative(term: Seq<char>, best: Seq<char>, alternatives: Seq<Seq<char>>) -> bool {
    &&& alternatives.contains(best)
    &&& forall|i: int| 0 <= i < alternatives.len() ==> rated_before(term, best, #[trigger] alternatives[i])
}

fn rate(search_term: &str, suggestion: &str) -> (res: usize)
    ensures
        res == rating(search_term@, suggestion@),
        levenshtein(search_term@, suggestion@) > 0 ==> res == levenshtein(search_term@, suggestion@),
        levenshtein(search_term@, suggestion@) == 0 ==> res == usize::MAX,
{
    let distance = edit_distance(search_term, suggestion);
    if distance == 0 {
        usize::MAX
    } else {
        distance
    }
}

/// The suggestion among the words that the index found for the term and
/// those it suggested: the closest to the term, the term itself not
/// counting as close; between equally close words, the first in text order.
/// Nothing when there are no alternatives.
pub fn did_you_mean(search_term: &str, queried: Vec<String>, suggested: Vec<String>) -> (res:
    Option<String>)
    ensures
        ({
            let alternatives = (queried@ + suggested@).map_values(|s: String| s@);
            &&& alternatives.len() == 0 ==> res.is_none()
            &&& alternatives.len() > 0 ==> (res matches Some(best) && is_best_alternative(
                search_term@,
                best@,
                alternatives,
            ))
        }),
{
    let mut alternatives = queried;
    let mut more = suggested;
    alternatives.append(&mut more);
    let ghost alts = alternatives@.map_values(|s: String| s@);
    assert(alts =~= (queried@ + suggested@).map_values(|s: String| s@));
    if alternatives.len() == 0 {
        return None;
    }
    let mut best: usize = 0;
    let mut best_rating = rate(search_term, alternatives[0].as_str());
    let mut i: usize = 1;
    proof {
        lemma_lex_total(alts[0], alts[0]);
    }
    while i < alternatives.len()
        invariant
            alts == alternatives@.map_values(|s: String| s@),
            1 <= i <= alternatives@.len(),
            best < i,
            best_rating == rating(search_term@, alts[best as int]),
            forall|j: int| 0 <= j < i ==> rated_before(search_term@, alts[best as int], #[trigger] alts[j]),
        decreases alternatives@.len() - i,
    {
        let r = rate(search_term, alternatives[i].as_str());
        if r < best_rating || (r == best_rating && !lex_less_or_equal(
            alternatives[best].as_str(),
            alternatives[i].as_str(),
        )) {
            proof {
                let b = alts[best as int];
                let c = alts[i as int];
                if r == best_rating {
                    lemma_lex_total(b, c);
                }
                assert forall|j: int| 0 <= j <= i implies rated_before(search_term@, c, #[trigger] alts[j]) by {
                    if j < i {
                        assert(rated_before(search_term@, b, alts[j]));
                        if rating(search_term@, c) == rating(search_term@, alts[j]) {
                            lemma_lex_transitive(c, b, alts[j]);
                        }
                    } else {
                        lemma_lex_total(c, c);
                    }
                }
            }
            best = i;
            best_rating = r;
        } else {
            proof {
                let b = alts[best as int];
                assert(rated_before(search_term@, b, alts[i as int]));
            }
        }
        i = i + 1;
    }
    assert(alts.contains(alts[best as int]));
    let chosen = alternatives[best].clone();
    Some(chosen)
}

/// The suggestion is not the term itself as long as some alternative
/// differs from it.
pub proof fn lemma_suggestion_differs_from_term(
    term: Seq<char>,
    best: Seq<char>,
    alternatives: Seq<Seq<char>>,
)
    requires
        is_best_alternative(term, best, alternatives),
        exists|i: int|
            0 <= i < alternatives.len() && #[trigger] alternatives[i] != term && levenshtein(
                term,
                alternatives[i],
            ) < usize::MAX,
    ensures
        best != term,
{
    let i = choose|i: int|
        0 <= i < alternatives.len() && #[trigger] alternatives[i] != term && levenshtein(
            term,
            alternatives[i],
        ) < usize::MAX;
    lemma_levenshtein_zero(term, alternatives[i]);
    lemma_levenshtein_zero(term, best);
    assert(rated_before(term, best, alternatives[i]));
    if best == term {
        assert(rating(term, best) == usize::MAX);
        assert(rating(term, alternatives[i]) < usize::MAX);
    }
}

} // verus!

verus! {

/// The first word of a term is a prefix of the term and holds no space and
/// no hyphen.
pub proof fn lemma_first_word_is_prefix(term: Seq<char>)
    ensures
        first_word(term).len() <= term.len(),
        first_word(term) == term.take(first_word(term).len() as int),
        forall|i: int|
            0 <= i < first_word(term).len() ==> #[trigger] first_word(term)[i] != ' '
                && first_word(term)[i] != '-',
    decreases term.len(),
{
    if term.len() > 0 && term[0] != ' ' && term[0] != '-' {
        lemma_first_word_is_prefix(term.drop_first());
        let rest = first_word(term.drop_first());
        assert(term.take((rest.len() + 1) as int) =~= seq![term[0]] + term.drop_first().take(rest.len() as int));
        assert forall|i: int| 0 <= i < first_word(term).len() implies #[trigger] first_word(term)[i]
            != ' ' && first_word(term)[i] != '-' by {
            if i > 0 {
                assert(first_word(term)[i] == rest[i - 1]);
            }
        }
    } else {
        assert(term.take(0) =~= Seq::<char>::empty());
    }
}

/// A query gives back the words of the objects it found, in their order:
/// when each object stands for a word, the objects together stand for those
/// words.
pub proof fn lemma_objects_decode_to_words(objects: Seq<Seq<char>>, words: Seq<Seq<char>>)
    requires
        objects.len() == words.len(),
        forall|i: int|
            0 <= i < objects.len() ==> decode_object(#[trigger] objects[i]) == Ok::<
                Seq<char>,
                QueryError,
            >(words[i]),
    ensures
        decode_objects(objects) == Ok::<Seq<Seq<char>>, QueryError>(words),
    decreases objects.len(),
{
    if objects.len() > 0 {
        assert forall|i: int| 0 <= i < objects.drop_first().len() implies decode_object(
            #[trigger] objects.drop_first()[i],
        ) == Ok::<Seq<char>, QueryError>(words.drop_first()[i]) by {
            assert(objects.drop_first()[i] == objects[i + 1]);
        }
        lemma_objects_decode_to_words(objects.drop_first(), words.drop_first());
        assert(decode_object(objects[0]) == Ok::<Seq<char>, QueryError>(words[0]));
        assert(seq![words[0]] + words.drop_first() =~= words);
    } else {
        assert(words =~= Seq::<Seq<char>>::empty());
    }
}

} // verus!

verus! {

/// The objects stand for words exactly when each of them does, and then the
/// words are those of the objects, in order.
pub proof fn lemma_decode_objects_pointwise(objects: Seq<Seq<char>>)
    ensures
        decode_objects(objects) is Ok <==> forall|i: int|
            0 <= i < objects.len() ==> #[trigger] decode_object(objects[i]) is Ok,
        decode_objects(objects) matches Ok(words) ==> words.len() == objects.len() && forall|i: int|
            0 <= i < objects.len() ==> decode_object(#[trigger] objects[i]) == Ok::<
                Seq<char>,
                QueryError,
            >(words[i]),
    decreases objects.len(),
{
    if objects.len() > 0 {
        let rest = objects.drop_first();
        lemma_decode_objects_pointwise(rest);
        assert forall|i: int| 0 < i < objects.len() implies objects[i] == rest[i - 1] by {}
        if decode_objects(objects) is Ok {
            let words = decode_objects(objects)->Ok_0;
            let rest_words = decode_objects(rest)->Ok_0;
            assert forall|i: int| 0 <= i < objects.len() implies decode_object(#[trigger] objects[i])
                == Ok::<Seq<char>, QueryError>(words[i]) by {
                if i > 0 {
                    assert(objects[i] == rest[i - 1]);
                    assert(words[i] == rest_words[i - 1]);
                }
            }
        } else {
            if decode_object(objects[0]) is Ok {
                let i = choose|i: int| 0 <= i < rest.len() && !(#[trigger] decode_object(rest[i]) is Ok);
                assert(objects[i + 1] == rest[i]);
            }
        }
        if forall|i: int| 0 <= i < objects.len() ==> #[trigger] decode_object(objects[i]) is Ok {
            assert(decode_object(objects[0]) is Ok);
            assert forall|i: int| 0 <= i < rest.len() implies #[trigger] decode_object(rest[i]) is Ok by {
                assert(rest[i] == objects[i + 1]);
            }
        }
    }
}

/// A word pushed into the index under its object is among the words that a
/// query gives back, at the place where the index returned its object,
/// whenever the query succeeds; it succeeds when every returned object
/// stands for a word.
pub proof fn lemma_query_finds_pushed_word(objects: Seq<Seq<char>>, i: int, word: Seq<char>)
    requires
        0 <= i < objects.len(),
        objects[i] == spec_base64_encode(encode_utf8(word)),
        decode_object(objects[i]) == Ok::<Seq<char>, QueryError>(word),
    ensures
        decode_objects(objects) matches Ok(words) ==> words[i] == word && words.contains(word),
{
    lemma_decode_objects_pointwise(objects);
    if decode_objects(objects) is Ok {
        let words = decode_objects(objects)->Ok_0;
        assert(decode_object(objects[i]) == Ok::<Seq<char>, QueryError>(words[i]));
        assert(words[i] == word);
    }
}

} // verus!

verus! {

/// The suggestion is, among the alternatives that differ from the term, one
/// at the least edit distance from the term, and the first in text order
/// among those (as long as some alternative differs from the term at a
/// distance below `usize::MAX`).
pub proof fn lemma_suggestion_is_closest_alternative(
    term: Seq<char>,
    best: Seq<char>,
    alternatives: Seq<Seq<char>>,
)
    requires
        is_best_alternative(term, best, alternatives),
        exists|i: int|
            0 <= i < alternatives.len() && #[trigger] alternatives[i] != term && levenshtein(
                term,
                alternatives[i],
            ) < usize::MAX,
    ensures
        best != term,
        alternatives.contains(best),
        forall|i: int|
            0 <= i < alternatives.len() && #[trigger] alternatives[i] != term ==> levenshtein(
                term,
                best,
            ) <= levenshtein(term, alternatives[i]),
        forall|i: int|
            0 <= i < alternatives.len() && #[trigger] alternatives[i] != term && levenshtein(
                term,
                best,
            ) == levenshtein(term, alternatives[i]) ==> lex_le(best, alternatives[i]),
{
    lemma_suggestion_differs_from_term(term, best, alternatives);
    lemma_levenshtein_zero(term, best);
    assert forall|i: int| 0 <= i < alternatives.len() && #[trigger] alternatives[i] != term implies levenshtein(
        term,
        best,
    ) <= levenshtein(term, alternatives[i]) && (levenshtein(term, best) == levenshtein(
        term,
        alternatives[i],
    ) ==> lex_le(best, alternatives[i])) by {
        lemma_levenshtein_zero(term, alternatives[i]);
        assert(rated_before(term, best, alternatives[i]));
        if levenshtein(term, best) > levenshtein(term, alternatives[i]) {
            assert(rating(term, best) > rating(term, alternatives[i]));
        }
    }
}

} // verus!
