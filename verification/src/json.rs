//! Lists of texts as JSON arrays.

use vstd::prelude::*;

verus! {

/// The JSON array that `serde_json::to_string` gives for a list of texts.
pub uninterp spec fn json_of_texts(items: Seq<Seq<char>>) -> Seq<char>;

/// The list of texts that `serde_json::from_str` reads from a JSON array, `None` where it fails.
pub uninterp spec fn texts_of_json(json: Seq<char>) -> Option<Seq<Seq<char>>>;

/// Calls `serde_json::to_string` on a list of texts.
///
/// Claimed: it succeeds, since a list of texts written to memory cannot fail; the result is the
/// named text; and `serde_json::from_str` reads the same list back.
#[verifier::external_body]
pub(crate) fn texts_to_json(items: &Vec<String>) -> (r: Option<String>)
    ensures
        r.deep_view() == Some(json_of_texts(items.deep_view())),
        r matches Some(json) ==> texts_of_json(json@) == Some(items.deep_view()),
{
    serde_json::to_string(items).ok()
}

/// Calls `serde_json::from_str` for a list of texts.
///
/// Claimed: the result is the named one, `None` where the text is no JSON array of strings.
#[verifier::external_body]
pub(crate) fn texts_from_json(json: &str) -> (r: Option<Vec<String>>)
    ensures
        r.deep_view() == texts_of_json(json@),
{
    serde_json::from_str(json).ok()
}

/// The JSON array for a list of texts.
pub fn encode_texts(items: &Vec<String>) -> (r: String)
    ensures
        r@ == json_of_texts(items.deep_view()),
        texts_of_json(r@) == Some(items.deep_view()),
{
    match texts_to_json(items) {
        Some(json) => json,
        None => "[]".to_owned(),
    }
}

/// The list of texts in a JSON array, `None` where the text is no such array.
pub fn decode_texts(json: &str) -> (r: Option<Vec<String>>)
    ensures
        r.deep_view() == texts_of_json(json@),
{
    texts_from_json(json)
}

} // verus!
