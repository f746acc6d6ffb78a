use wiktionary_en::identifier_index::{did_you_mean, object_id, query, suggest, QueryError};

fn s(text: &str) -> String {
    text.to_string()
}

#[test]
fn object_id_is_base64_of_the_word() {
    assert_eq!(object_id("hello"), "aGVsbG8=");
    assert_eq!(object_id(""), "");
    assert_eq!(object_id("ä"), "w6Q=");
}

#[test]
fn query_decodes_objects_back_to_words() {
    let objects = vec![object_id("hello"), object_id("wörld"), object_id("self-made")];
    assert_eq!(query(&objects), Ok(vec![s("hello"), s("wörld"), s("self-made")]));
    assert_eq!(query(&vec![]), Ok(vec![]));
}

#[test]
fn query_rejects_invalid_base64() {
    assert_eq!(query(&vec![object_id("fine"), s("not base64!")]), Err(QueryError::InvalidBase64));
}

#[test]
fn query_rejects_invalid_utf8() {
    assert_eq!(query(&vec![s("/w==")]), Err(QueryError::InvalidUtf8));
}

#[test]
fn suggest_takes_the_first_word() {
    assert_eq!(suggest("hello world"), "hello");
    assert_eq!(suggest("self-made"), "self");
    assert_eq!(suggest("word"), "word");
    assert_eq!(suggest(" leading"), "");
    assert_eq!(suggest(""), "");
}

#[test]
fn did_you_mean_picks_the_closest_alternative() {
    let queried = vec![s("house"), s("hoose")];
    let suggested = vec![s("horse"), s("mouse")];
    assert_eq!(did_you_mean("hoose", queried, suggested), Some(s("horse")));
}

#[test]
fn did_you_mean_breaks_ties_by_text() {
    assert_eq!(did_you_mean("cat", vec![s("cut"), s("bat")], vec![]), Some(s("bat")));
    assert_eq!(did_you_mean("cat", vec![], vec![s("cot"), s("cab")]), Some(s("cab")));
}

#[test]
fn did_you_mean_without_alternatives() {
    assert_eq!(did_you_mean("cat", vec![], vec![]), None);
    assert_eq!(did_you_mean("cat", vec![s("cat")], vec![]), Some(s("cat")));
}
