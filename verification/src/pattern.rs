//! The boundary to the `regex` crate: compiled patterns and the three kinds of
//! search that the parser runs with them.
//!
//! Nothing in this file is proved. Each function states what the `regex` crate
//! is trusted to do; what a search finds is given a name, as a function of the
//! pattern's text and of the text searched.

use vstd::prelude::*;

verus! {

/// A compiled pattern of the `regex` crate. Its inside is not visible to proofs.
#[verifier::external_type_specification]
#[verifier::external_body]
pub struct ExRegex(regex::Regex);

/// The error of the `regex` crate for a pattern that cannot be compiled.
#[verifier::external_type_specification]
#[verifier::external_body]
pub struct ExRegexError(regex::Error);

/// A pattern compiled by `Regex::new`, with the options that `Regex::new`
/// gives it. There is no other way to make one.
pub struct Pattern {
    regex: regex::Regex,
}

/// The text that a pattern was compiled from: what `Regex::as_str` returns
/// for it.
pub uninterp spec fn pattern_text(pattern: Pattern) -> Seq<char>;

/// Whether `Regex::new` accepts the pattern.
pub uninterp spec fn compiles(text: Seq<char>) -> bool;

/// What `Regex::captures` finds: `None` where the pattern matches nowhere in
/// the haystack, else the text of every capture group of the leftmost match,
/// group 0 (the whole match) first, with `None` for a group that took no part.
pub uninterp spec fn first_match(pattern: Seq<char>, haystack: Seq<char>) -> Option<
    Seq<Option<Seq<char>>>,
>;

/// What `Regex::captures_iter` finds, reduced to one capture group: for each of
/// the successive non-overlapping matches, in order, the text of that group,
/// or `None` where the match has no such group or the group took no part.
pub uninterp spec fn group_of_each_match(
    pattern: Seq<char>,
    haystack: Seq<char>,
    group: int,
) -> Seq<Option<Seq<char>>>;

/// What `Regex::split` yields: the parts of the haystack that lie between the
/// successive matches, in order, the part before the first match and the part
/// after the last one included.
pub uninterp spec fn split_parts(pattern: Seq<char>, haystack: Seq<char>) -> Seq<Seq<char>>;

/// `Regex::new`: whether a pattern compiles depends on its text alone, and the
/// compiled pattern remembers that text.
#[verifier::external_body]
pub(crate) fn compile(text: &str) -> (made: Result<Pattern, regex::Error>)
    ensures
        made is Ok <==> compiles(text@),
        made matches Ok(pattern) ==> pattern_text(pattern) == text@,
{
    regex::Regex::new(text).map(|regex| Pattern { regex })
}

/// `Regex::captures`, with each capture group of the match turned into the
/// text it covers: what is found depends on the pattern's text and on the
/// haystack alone.
#[verifier::external_body]
pub(crate) fn captures<'h>(pattern: &Pattern, haystack: &'h str) -> (groups: Option<
    Vec<Option<&'h str>>,
>)
    ensures
        groups.deep_view() == first_match(pattern_text(*pattern), haystack@),
{
    let found = pattern.regex.captures(haystack);
    found.map(|groups| groups.iter().map(|g| g.map(|m| m.as_str())).collect())
}

/// `Regex::captures_iter`, keeping of each match the text of one capture group
/// (`Captures::get`): what is found depends on the pattern's text, on the
/// haystack and on the group's number alone.
#[verifier::external_body]
pub(crate) fn captures_iter_group<'h>(
    pattern: &Pattern,
    haystack: &'h str,
    group: usize,
) -> (texts: Vec<Option<&'h str>>)
    ensures
        texts.deep_view() == group_of_each_match(pattern_text(*pattern), haystack@, group as int),
{
    let found = pattern.regex.captures_iter(haystack);
    found.map(|groups| groups.get(group).map(|m| m.as_str())).collect()
}

/// `Regex::split`: the parts depend on the pattern's text and on the haystack
/// alone.
#[verifier::external_body]
pub(crate) fn split<'h>(pattern: &Pattern, haystack: &'h str) -> (parts: Vec<&'h str>)
    ensures
        parts.deep_view() == split_parts(pattern_text(*pattern), haystack@),
{
    pattern.regex.split(haystack).collect()
}

} // verus!
