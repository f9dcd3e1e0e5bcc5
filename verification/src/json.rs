//! Reading JSON text through `serde_json`.
//!
//! A place in a document is given by a pointer such as `/data/levels`. What the parser finds there
//! is a function of the document's text and the pointer; each result has a name, and nothing is
//! stated of how JSON is parsed.
use vstd::prelude::*;

verus! {

/// The string at a place of a document; `None` where the text is no JSON or there is no string.
pub uninterp spec fn string_found(doc: Seq<char>, ptr: Seq<char>) -> Option<Seq<char>>;

/// The string at a place of a document that is given by its bytes.
pub uninterp spec fn byte_string_found(doc: Seq<u8>, ptr: Seq<char>) -> Option<Seq<char>>;

/// The unsigned number at a place of a document.
pub uninterp spec fn u64_found(doc: Seq<char>, ptr: Seq<char>) -> Option<u64>;

/// The compact text of the value at a place of a document.
pub uninterp spec fn value_found(doc: Seq<char>, ptr: Seq<char>) -> Option<Seq<char>>;

/// The compact texts of the items of the array at a place of a document.
pub uninterp spec fn items_found(doc: Seq<char>, ptr: Seq<char>) -> Option<Seq<Seq<char>>>;

/// The first key of the object at a place of a document.
pub uninterp spec fn first_key_found(doc: Seq<char>, ptr: Seq<char>) -> Option<Seq<char>>;

/// The indented text of the value at a place of a document.
pub uninterp spec fn pretty_found(doc: Seq<char>, ptr: Seq<char>) -> Option<Seq<char>>;

/// The number of items of the array at a place of a document.
pub uninterp spec fn array_len_found(doc: Seq<char>, ptr: Seq<char>) -> Option<usize>;

/// The members of the object at a place of a document: each key with the compact text of its value.
pub uninterp spec fn members_found(doc: Seq<char>, ptr: Seq<char>) -> Option<
    Seq<(Seq<char>, Seq<char>)>,
>;

/// The text as a JSON string, quoted and escaped.
pub uninterp spec fn quoted(text: Seq<char>) -> Seq<char>;

/// What the strings of a list hold.
pub open spec fn texts(v: Seq<String>) -> Seq<Seq<char>> {
    v.map_values(|s: String| s@)
}

/// What the pairs of strings of a list hold.
pub open spec fn pair_texts(v: Seq<(String, String)>) -> Seq<(Seq<char>, Seq<char>)> {
    v.map_values(|p: (String, String)| (p.0@, p.1@))
}

/// What the strings of a list hold that come with numbers.
pub open spec fn pair_ids(v: Seq<(String, u64)>) -> Seq<(Seq<char>, u64)> {
    v.map_values(|p: (String, u64)| (p.0@, p.1))
}

/// What an optional string holds.
pub open spec fn text_opt(o: Option<String>) -> Option<Seq<char>> {
    match o {
        Some(s) => Some(s@),
        None => None,
    }
}

/// Parses with `serde_json::from_str`, goes to the place with `Value::pointer` and takes the string
/// there with `Value::as_str`. The result is named `string_found`.
#[verifier::external_body]
pub(crate) fn string_at(doc: &str, ptr: &str) -> (r: Option<String>)
    ensures
        text_opt(r) == string_found(doc@, ptr@),
{
    let v: serde_json::Value = serde_json::from_str(doc).ok()?;
    v.pointer(ptr)?.as_str().map(String::from)
}
/// Parses with `serde_json::from_slice`, goes to the place with `Value::pointer` and takes the string
/// there with `Value::as_str`. The result is named `byte_string_found`.
#[verifier::external_body]
pub(crate) fn byte_string_at(doc: &[u8], ptr: &str) -> (r: Option<String>)
    ensures
        text_opt(r) == byte_string_found(doc@, ptr@),
{
    let v: serde_json::Value = serde_json::from_slice(doc).ok()?;
    v.pointer(ptr)?.as_str().map(String::from)
}

/// Parses with `serde_json::from_str`, goes to the place with `Value::pointer` and takes the number
/// there with `Value::as_u64`. The result is named `u64_found`.
#[verifier::external_body]
pub(crate) fn u64_at(doc: &str, ptr: &str) -> (r: Option<u64>)
    ensures
        r == u64_found(doc@, ptr@),
{
    let v: serde_json::Value = serde_json::from_str(doc).ok()?;
    v.pointer(ptr)?.as_u64()
}

/// Parses with `serde_json::from_str`, goes to the place with `Value::pointer` and writes the value
/// there with `Value::to_string`. The result is named `value_found`.
#[verifier::external_body]
pub(crate) fn value_at(doc: &str, ptr: &str) -> (r: Option<String>)
    ensures
        text_opt(r) == value_found(doc@, ptr@),
{
    let v: serde_json::Value = serde_json::from_str(doc).ok()?;
    Some(v.pointer(ptr)?.to_string())
}

/// Parses with `serde_json::from_str`, goes to the place with `Value::pointer`, takes the array there
/// with `Value::as_array` and writes each item with `Value::to_string`. The result is named
/// `items_found`.
#[verifier::external_body]
pub(crate) fn items_at(doc: &str, ptr: &str) -> (r: Option<Vec<String>>)
    ensures
        (match r {
            Some(v) => Some(texts(v@)),
            None => None,
        }) == items_found(doc@, ptr@),
{
    let v: serde_json::Value = serde_json::from_str(doc).ok()?;
    Some(v.pointer(ptr)?.as_array()?.iter().map(|x| x.to_string()).collect())
}

/// Parses with `serde_json::from_str`, goes to the place with `Value::pointer`, takes the object
/// there with `Value::as_object` and its first key with `Map::keys`. The result is named
/// `first_key_found`.
#[verifier::external_body]
pub(crate) fn first_key_at(doc: &str, ptr: &str) -> (r: Option<String>)
    ensures
        text_opt(r) == first_key_found(doc@, ptr@),
{
    let v: serde_json::Value = serde_json::from_str(doc).ok()?;
    v.pointer(ptr)?.as_object()?.keys().next().cloned()
}

/// Parses with `serde_json::from_str`, goes to the place with `Value::pointer` and writes the value
/// there with `serde_json::to_string_pretty`. The result is named `pretty_found`.
#[verifier::external_body]
pub(crate) fn pretty_at(doc: &str, ptr: &str) -> (r: Option<String>)
    ensures
        text_opt(r) == pretty_found(doc@, ptr@),
{
    let v: serde_json::Value = serde_json::from_str(doc).ok()?;
    serde_json::to_string_pretty(v.pointer(ptr)?).ok()
}

/// Parses with `serde_json::from_str`, goes to the place with `Value::pointer` and takes the length
/// of the array there. The result is named `array_len_found`.
#[verifier::external_body]
pub(crate) fn array_len_at(doc: &str, ptr: &str) -> (r: Option<usize>)
    ensures
        r == array_len_found(doc@, ptr@),
{
    let v: serde_json::Value = serde_json::from_str(doc).ok()?;
    v.pointer(ptr)?.as_array().map(|a| a.len())
}

/// Parses with `serde_json::from_str`, goes to the place with `Value::pointer`, takes the object there
/// with `Value::as_object` and writes each value with `Value::to_string`. The result is named
/// `members_found`.
#[verifier::external_body]
pub(crate) fn members_at(doc: &str, ptr: &str) -> (r: Option<Vec<(String, String)>>)
    ensures
        (match r {
            Some(v) => Some(pair_texts(v@)),
            None => None,
        }) == members_found(doc@, ptr@),
{
    let v: serde_json::Value = serde_json::from_str(doc).ok()?;
    Some(v.pointer(ptr)?.as_object()?.iter().map(|(k, x)| (k.clone(), x.to_string())).collect())
}

/// Writes a string as JSON through `serde_json::Value`. The result is named `quoted`.
#[verifier::external_body]
pub(crate) fn quote(text: &str) -> (r: String)
    ensures
        r@ == quoted(text@),
{
    serde_json::Value::from(text).to_string()
}

} // verus!
