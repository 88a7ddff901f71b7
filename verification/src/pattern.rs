//! Searching text with regular expressions.
//!
//! The searches are done by the `regex` crate. What a search returns is a
//! function of the pattern and of the text alone; this module gives each
//! kind of search a name for that result and states nothing more of it.

use vstd::prelude::*;
use regex::Regex;

verus! {

/// The text of the first match of `pattern` in `text`; `None` where nothing
/// matches or `pattern` is no regular expression.
pub uninterp spec fn regex_find(pattern: Seq<char>, text: Seq<char>) -> Option<Seq<char>>;

/// The capture groups of the first match of `pattern` in `text`, group 0
/// first, each with the text it matched or `None` where it took no part;
/// `None` where nothing matches or `pattern` is no regular expression.
pub uninterp spec fn regex_captures(pattern: Seq<char>, text: Seq<char>) -> Option<
    Seq<Option<Seq<char>>>,
>;

/// The capture groups of each of the successive matches of `pattern` in
/// `text` that do not overlap, in the order of the text; empty where
/// nothing matches or `pattern` is no regular expression.
pub uninterp spec fn regex_captures_iter(pattern: Seq<char>, text: Seq<char>) -> Seq<
    Seq<Option<Seq<char>>>,
>;

/// Compiles `pattern` with `Regex::new` and searches `text` with
/// `Regex::find`. The contract only names the result: the matched text,
/// copied out of the `Match`.
#[verifier::external_body]
pub(crate) fn find_first(pattern: &str, text: &str) -> (r: Option<String>)
    ensures
        r.deep_view() == regex_find(pattern@, text@),
{
    Regex::new(pattern).ok()?.find(text).map(|m| m.as_str().to_string())
}

/// Compiles `pattern` with `Regex::new` and searches `text` with
/// `Regex::captures`. The contract only names the result: the text of each
/// group of the `Captures`, copied out in the order of the groups.
#[verifier::external_body]
pub(crate) fn capture_first(pattern: &str, text: &str) -> (r: Option<Vec<Option<String>>>)
    ensures
        r.deep_view() == regex_captures(pattern@, text@),
{
    let groups = Regex::new(pattern).ok()?.captures(text)?;
    Some(groups.iter().map(|g| g.map(|m| m.as_str().to_string())).collect())
}

/// Compiles `pattern` with `Regex::new` and walks `text` with
/// `Regex::captures_iter`. The contract only names the result: for each
/// match that the iterator yields, the text of each of its groups.
#[verifier::external_body]
pub(crate) fn capture_all(pattern: &str, text: &str) -> (r: Vec<Vec<Option<String>>>)
    ensures
        r.deep_view() == regex_captures_iter(pattern@, text@),
{
    match Regex::new(pattern) {
        Ok(re) => re.captures_iter(text).map(
            |c| c.iter().map(|g| g.map(|m| m.as_str().to_string())).collect(),
        ).collect(),
        Err(_) => Vec::new(),
    }
}

} // verus!
