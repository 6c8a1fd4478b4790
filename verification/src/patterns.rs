//! What this crate leaves to `regex` and to the standard library: matching a
//! pattern, mapping a text to upper case, and appending to a string. Nothing
//! in this file is proved: each item states what the function it stands for
//! is taken to do.

use regex::Regex;
use vstd::prelude::*;
use crate::text::text_of;

verus! {

/// Whether `pattern` is a regular expression that `regex` accepts and that
/// matches somewhere in `text`.
pub uninterp spec fn pattern_matches(pattern: Seq<char>, text: Seq<char>) -> bool;

/// The part of `text` that the capture group named `group` holds in the first
/// match of `pattern`; `None` where `regex` does not accept `pattern`, where
/// nothing matches, or where the group took no part in the match.
pub uninterp spec fn pattern_group(pattern: Seq<char>, text: Seq<char>, group: Seq<char>) -> Option<
    Seq<char>,
>;

/// `text` with every character mapped to upper case.
pub uninterp spec fn uppercase(text: Seq<char>) -> Seq<char>;

/// `regex::Regex::new` followed by `regex::Regex::is_match`. A pattern that
/// does not compile matches nothing. The result is taken to depend on the two
/// texts alone.
#[verifier::external_body]
pub(crate) fn regex_is_match(pattern: &str, text: &str) -> (hit: bool)
    ensures
        hit == pattern_matches(pattern@, text@),
{
    match Regex::new(pattern) {
        Ok(re) => re.is_match(text),
        Err(_) => false,
    }
}

/// `regex::Regex::new`, `regex::Regex::captures` and, for each name in
/// `groups`, `regex::Captures::name`, with the text of each group copied out.
/// The pattern is compiled and matched once. Each part of the result is taken
/// to depend on the pattern, the text and the name of its group alone.
#[verifier::external_body]
pub(crate) fn regex_captures(pattern: &str, text: &str, groups: &Vec<&str>) -> (found: Vec<
    Option<String>,
>)
    ensures
        found@.len() == groups@.len(),
        forall|i: int|
            0 <= i < groups@.len() ==> text_of(#[trigger] found@[i]) == pattern_group(
                pattern@,
                text@,
                groups@[i]@,
            ),
{
    let caps = match Regex::new(pattern) {
        Ok(re) => re.captures(text),
        Err(_) => None,
    };
    groups.iter().map(
        |group| caps.as_ref().and_then(|c| c.name(group)).map(|part| part.as_str().to_string()),
    ).collect()
}

/// `str::to_uppercase`: the upper-case form of `text` under Unicode's case mapping.
#[verifier::external_body]
pub(crate) fn to_uppercase(text: &str) -> (upper: String)
    ensures
        upper@ == uppercase(text@),
{
    text.to_uppercase()
}

/// `String::push` appends one character.
pub assume_specification[ String::push ](s: &mut String, ch: char)
    ensures
        final(s)@ == old(s)@.push(ch),
;

} // verus!
