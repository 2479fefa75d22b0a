//! Texts and lists of texts as JSON.

use crate::text;
use vstd::prelude::*;

verus! {

/// A text as a JSON string.
pub uninterp spec fn json_string(s: Seq<char>) -> Seq<char>;

/// What a JSON text says that holds a string or null, or none if it holds
/// anything else.
pub uninterp spec fn parsed_string(s: Seq<char>) -> Option<Option<Seq<char>>>;

/// A list of texts as a JSON array.
pub uninterp spec fn json_array(list: Seq<Seq<char>>) -> Seq<char>;

/// The list that a JSON array of strings stands for, or the error of reading
/// anything else.
pub uninterp spec fn parsed_array(s: Seq<char>) -> Result<Seq<Seq<char>>, Seq<char>>;

pub open spec fn string_outcome(r: Option<Option<String>>) -> Option<Option<Seq<char>>> {
    match r {
        Some(value) => Some(text::text_opt(value)),
        None => None,
    }
}

pub open spec fn array_outcome(r: Result<Vec<String>, String>) -> Result<
    Seq<Seq<char>>,
    Seq<char>,
> {
    match r {
        Ok(list) => Ok(text::texts(list@)),
        Err(error) => Err(error@),
    }
}

/// `serde_json::to_string` writes a text as a JSON string, which depends on the
/// text alone and reads back as the text.
#[verifier::external_body]
pub(crate) fn write_string(s: &str) -> (r: String)
    ensures
        r@ == json_string(s@),
        parsed_string(r@) == Some(Some(s@)),
{
    serde_json::to_string(s).expect("a text is serializable")
}

/// `serde_json::from_str` reads a JSON string or null; what it reads depends on
/// the text alone.
#[verifier::external_body]
pub(crate) fn read_string(s: &str) -> (r: Option<Option<String>>)
    ensures
        string_outcome(r) == parsed_string(s@),
{
    serde_json::from_str::<Option<String>>(s).ok()
}

/// `serde_json::to_string` writes a list of texts as a JSON array, which depends
/// on the texts alone and reads back as the list.
#[verifier::external_body]
pub(crate) fn write_array(list: &Vec<String>) -> (r: String)
    ensures
        r@ == json_array(text::texts(list@)),
        parsed_array(r@) is Ok,
        parsed_array(r@)->Ok_0 == text::texts(list@),
{
    serde_json::to_string(list).expect("a list of texts is serializable")
}

/// `serde_json::from_str` reads a JSON array of strings; what it reads, and the
/// text of its error, depend on the text alone.
#[verifier::external_body]
pub(crate) fn read_array(s: &str) -> (r: Result<Vec<String>, String>)
    ensures
        array_outcome(r) == parsed_array(s@),
{
    serde_json::from_str::<Vec<String>>(s).map_err(|error| error.to_string())
}

} // verus!
