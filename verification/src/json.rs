//! Lists of texts stored as JSON.

use crate::text::texts;
use vstd::prelude::*;

verus! {

/// The texts of a JSON list, if a text is such a list.
pub uninterp spec fn json_texts(json: Seq<char>) -> Option<Seq<Seq<char>>>;

/// `serde_json::from_str` into a list of strings: the strings, none where the text is not a JSON
/// list of strings.
#[verifier::external_body]
pub(crate) fn parse_texts(json: &str) -> (r: Option<Vec<String>>)
    ensures
        match r {
            Some(v) => json_texts(json@) == Some(texts(v@)),
            None => json_texts(json@) is None,
        },
{
    match serde_json::from_str::<Vec<String>>(json) {
        Ok(v) => Some(v),
        Err(_) => None,
    }
}

/// The JSON list of texts.
pub uninterp spec fn texts_json(v: Seq<Seq<char>>) -> Seq<char>;

/// `serde_json::to_string` on a list of strings: its JSON text, from which the list can be read back.
/// Writing strings to memory does not fail.
#[verifier::external_body]
pub(crate) fn write_texts(v: &Vec<String>) -> (r: Option<String>)
    ensures
        r is Some,
        r->0@ == texts_json(texts(v@)),
        json_texts(r->0@) == Some(texts(v@)),
{
    serde_json::to_string(v).ok()
}

/// The JSON list of texts.
pub fn list_json(v: &Vec<String>) -> (s: String)
    ensures
        s@ == texts_json(texts(v@)),
        json_texts(s@) == Some(texts(v@)),
{
    write_texts(v).unwrap()
}

/// The texts of a JSON list, none at all where the text is not such a list.
pub open spec fn listed(json: Seq<char>) -> Seq<Seq<char>> {
    match json_texts(json) {
        Some(s) => s,
        None => seq![],
    }
}

/// The texts of a JSON list, none at all where the text is not such a list.
pub fn list_of(json: &str) -> (v: Vec<String>)
    ensures
        texts(v@) == listed(json@),
{
    match parse_texts(json) {
        Some(v) => v,
        None => {
            let v: Vec<String> = Vec::new();
            proof {
                assert(texts(v@) =~= seq![]);
            }
            v
        },
    }
}

} // verus!
