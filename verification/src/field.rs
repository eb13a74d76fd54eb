//! Reading one score line: a label, a dot leader and a score.

use vstd::prelude::*;
use crate::error::{BigFiveError, ErrorView};
use crate::grammar::{ScorePattern, SCORE_REGEX};
use crate::pattern::first_match;
use crate::score::{
    decimal_value,
    lemma_score_of_numeral,
    numeral_of,
    parse_score,
    score_of,
};

verus! {

/// The description carried by the error for a match that does not consist of
/// a whole match, a label and a digit run.
pub const FIELD_MESSAGE: &'static str = "Could not parse field";

/// The description carried by the error for a digit run that denotes no score.
pub const FIELD_SCORE_MESSAGE: &'static str = "Could not parse field score";

/// The capture groups of one match: for each group the text it covers, if the
/// group took part in the match.
pub type Groups = Seq<Option<Seq<char>>>;

/// What the score pattern found in a line: the capture groups of its leftmost
/// match, if it has one.
pub type Found = Option<Groups>;

/// What reading a line gives: the label and the score of the line, or the
/// error that rejects it.
pub type Field = Result<(Seq<char>, u8), ErrorView>;

/// The (label, score) field that the capture groups of a matched score line
/// give.
///
/// The groups have to be three and all there: the whole match, the label and
/// the digit run. The label is taken as it stands; the score is what the digit
/// run denotes, and a run that denotes none (more than 255) is rejected.
pub open spec fn field_of(groups: Groups) -> Field {
    if groups.len() == 3 && groups[0] is Some && groups[1] is Some && groups[2] is Some {
        match score_of(groups[2]->0) {
            Some(score) => Ok((groups[1]->0, score)),
            None => Err(ErrorView::InputError(FIELD_SCORE_MESSAGE@)),
        }
    } else {
        Err(ErrorView::InputError(FIELD_MESSAGE@))
    }
}

/// The field of a line, from what the score pattern found in it: a line
/// without a match is rejected with the description `unmatched`.
pub open spec fn line_of(found: Found, unmatched: Seq<char>) -> Field {
    match found {
        Some(groups) => field_of(groups),
        None => Err(ErrorView::InputError(unmatched)),
    }
}

/// The mathematical value of what was read from a line.
pub open spec fn field_view<'a>(read: Result<(&'a str, u8), BigFiveError<'a>>) -> Field {
    match read {
        Ok((label, score)) => Ok((label@, score)),
        Err(e) => Err(e@),
    }
}

/// What the score pattern finds in a line that consists of a label, a dot
/// leader and the numeral of a score: the whole match, the label and the
/// numeral.
pub open spec fn found_in_score_line(whole: Seq<char>, label: Seq<char>, score: u8) -> Found {
    Some(seq![Some(whole), Some(label), Some(numeral_of(score as nat))])
}

/// A line on which the score pattern finds a label and the numeral of a score
/// gives that label and that score.
pub proof fn lemma_numeral_is_read(
    whole: Seq<char>,
    label: Seq<char>,
    score: u8,
    unmatched: Seq<char>,
)
    ensures
        line_of(found_in_score_line(whole, label, score), unmatched) == Ok::<_, ErrorView>(
            (label, score),
        ),
{
    lemma_score_of_numeral(score);
}

/// A matched line whose digit run denotes 256 or more is rejected as an input
/// error.
pub proof fn lemma_score_out_of_range(groups: Groups)
    requires
        groups.len() == 3,
        groups[0] is Some,
        groups[1] is Some,
        groups[2] is Some,
        decimal_value(groups[2]->0) >= 256,
    ensures
        field_of(groups) == Err::<(Seq<char>, u8), _>(ErrorView::InputError(FIELD_SCORE_MESSAGE@)),
{
}

/// Reads the label and the score from the capture groups of a matched score
/// line.
pub fn extract_field_score<'a>(groups: &Vec<Option<&'a str>>) -> (read: Result<
    (&'a str, u8),
    BigFiveError<'a>,
>)
    ensures
        field_view(read) == field_of(groups.deep_view()),
{
    if groups.len() != 3 {
        return Err(BigFiveError::InputError(FIELD_MESSAGE));
    }
    assert(groups.deep_view()[0] == groups[0].deep_view());
    assert(groups.deep_view()[1] == groups[1].deep_view());
    assert(groups.deep_view()[2] == groups[2].deep_view());
    match (groups[0], groups[1], groups[2]) {
        (Some(_), Some(label), Some(digits)) => match parse_score(digits) {
            Some(score) => Ok((label, score)),
            None => Err(BigFiveError::InputError(FIELD_SCORE_MESSAGE)),
        },
        _ => Err(BigFiveError::InputError(FIELD_MESSAGE)),
    }
}

/// Reads the label and the score from what the score pattern found in a line.
pub fn parse_field<'a>(found: &Option<Vec<Option<&'a str>>>, unmatched: &'a str) -> (read: Result<
    (&'a str, u8),
    BigFiveError<'a>,
>)
    ensures
        field_view(read) == line_of(found.deep_view(), unmatched@),
{
    match found {
        Some(groups) => extract_field_score(groups),
        None => Err(BigFiveError::InputError(unmatched)),
    }
}

/// Reads one score line: the label before the dot leader and the score after
/// it. A line in which the pattern finds no score is rejected with the
/// description `unmatched`.
pub fn parse_score_line<'a>(pattern: &ScorePattern, line: &'a str, unmatched: &'a str) -> (read:
    Result<(&'a str, u8), BigFiveError<'a>>)
    ensures
        field_view(read) == line_of(first_match(SCORE_REGEX@, line@), unmatched@),
{
    let found = pattern.captures(line);
    parse_field(&found, unmatched)
}

} // verus!
