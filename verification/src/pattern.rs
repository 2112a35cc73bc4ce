//! Regular expressions, matched by the `regex` crate.
//!
//! What a pattern matches in a text is not restated here: the results
//! are named, and the functions that read them are verified for every
//! result.
use regex::Regex;
use vstd::prelude::*;

verus! {

/// Whether `Regex::is_match` finds `pattern` anywhere in `text`; false
/// where `pattern` is no regular expression.
pub uninterp spec fn regex_matches(pattern: Seq<char>, text: Seq<char>) -> bool;

/// What `Regex::find` returns for `pattern` in `text`: the text of the
/// leftmost match, or nothing where there is none or `pattern` is no
/// regular expression.
pub uninterp spec fn regex_found(pattern: Seq<char>, text: Seq<char>) -> Option<Seq<char>>;

/// What `Regex::captures` returns for `pattern` in `text`: for the
/// leftmost match the text of each group, the whole match first, a group
/// that took no part being nothing; nothing at all where there is no
/// match or `pattern` is no regular expression.
pub uninterp spec fn regex_groups(pattern: Seq<char>, text: Seq<char>) -> Option<
    Seq<Option<Seq<char>>>,
>;

/// The groups as sequences of characters.
pub open spec fn group_views(groups: Seq<Option<String>>) -> Seq<Option<Seq<char>>> {
    Seq::new(
        groups.len(),
        |i: int|
            match groups[i] {
                Some(s) => Some(s@),
                None => None,
            },
    )
}

/// The groups of a match as sequences of characters.
pub open spec fn match_views(groups: Option<Vec<Option<String>>>) -> Option<
    Seq<Option<Seq<char>>>,
> {
    match groups {
        Some(v) => Some(group_views(v@)),
        None => None,
    }
}

/// The text found as a sequence of characters.
pub open spec fn found_view(found: Option<String>) -> Option<Seq<char>> {
    match found {
        Some(s) => Some(s@),
        None => None,
    }
}

/// Tests a text with `Regex::is_match`. The contract only names the
/// result.
#[verifier::external_body]
pub(crate) fn is_match(pattern: &str, text: &str) -> (r: bool)
    ensures
        r == regex_matches(pattern@, text@),
{
    match Regex::new(pattern) {
        Ok(re) => re.is_match(text),
        Err(_) => false,
    }
}

/// Searches a text with `Regex::find`. The contract only names the
/// result.
#[verifier::external_body]
pub(crate) fn find(pattern: &str, text: &str) -> (r: Option<String>)
    ensures
        found_view(r) == regex_found(pattern@, text@),
{
    match Regex::new(pattern) {
        Ok(re) => re.find(text).map(|m| m.as_str().to_string()),
        Err(_) => None,
    }
}

/// Searches a text with `Regex::captures` and copies the text of each
/// group. The contract only names the result.
#[verifier::external_body]
pub(crate) fn captures(pattern: &str, text: &str) -> (r: Option<Vec<Option<String>>>)
    ensures
        match_views(r) == regex_groups(pattern@, text@),
{
    match Regex::new(pattern) {
        Ok(re) => re.captures(text).map(
            |c| c.iter().map(|g| g.map(|m| m.as_str().to_string())).collect(),
        ),
        Err(_) => None,
    }
}

} // verus!
