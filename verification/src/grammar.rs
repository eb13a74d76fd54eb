//! The two patterns that the report grammar is written in, compiled once and
//! then used for every search.

use vstd::prelude::*;
use crate::error::{BigFiveError, ErrorView};
use crate::pattern::{
    compiles,
    first_match,
    group_of_each_match,
    pattern_text,
    split_parts,
    Pattern,
};

verus! {

/// A header line: an upper-case domain name, a dot leader, the overall score
/// and the line feed that ends the line.
pub const RESULT_HEADER_REGEX: &'static str = r"([A-Z\- ]+?\.+\d+\n)";

/// A score line: a label, a dot leader and the digits of the score.
pub const SCORE_REGEX: &'static str = r"([\w\- ]+)\.+(\d+)";

/// The description carried by the error for a pattern that does not compile.
pub const COMPILE_MESSAGE: &'static str = "Could not compile Regex";

/// The capture group of the header pattern that holds the header line.
pub const HEADER_GROUP: usize = 1;

/// The compiled header pattern.
pub struct HeaderPattern {
    pattern: Pattern,
}

impl HeaderPattern {
    #[verifier::type_invariant]
    spec fn well_formed(&self) -> bool {
        pattern_text(self.pattern) == RESULT_HEADER_REGEX@
    }

    /// Compiles the header pattern.
    pub fn new<'a>() -> (made: Result<HeaderPattern, BigFiveError<'a>>)
        ensures
            made is Ok <==> compiles(RESULT_HEADER_REGEX@),
            made matches Err(e) ==> e@ == ErrorView::SimpleError(COMPILE_MESSAGE@),
    {
        match crate::pattern::compile(RESULT_HEADER_REGEX) {
            Ok(pattern) => Ok(HeaderPattern { pattern }),
            Err(_) => Err(BigFiveError::SimpleError(COMPILE_MESSAGE)),
        }
    }

    /// The header line of each header found in the report, in order.
    pub fn headers<'h>(&self, report: &'h str) -> (found: Vec<Option<&'h str>>)
        ensures
            found.deep_view() == group_of_each_match(
                RESULT_HEADER_REGEX@,
                report@,
                HEADER_GROUP as int,
            ),
    {
        proof {
            use_type_invariant(self);
        }
        crate::pattern::captures_iter_group(&self.pattern, report, HEADER_GROUP)
    }

    /// The parts of the report that lie between its headers, in order.
    pub fn split<'h>(&self, report: &'h str) -> (parts: Vec<&'h str>)
        ensures
            parts.deep_view() == split_parts(RESULT_HEADER_REGEX@, report@),
    {
        proof {
            use_type_invariant(self);
        }
        crate::pattern::split(&self.pattern, report)
    }
}

/// The compiled score-line pattern.
pub struct ScorePattern {
    pattern: Pattern,
}

impl ScorePattern {
    #[verifier::type_invariant]
    spec fn well_formed(&self) -> bool {
        pattern_text(self.pattern) == SCORE_REGEX@
    }

    /// Compiles the score-line pattern.
    pub fn new<'a>() -> (made: Result<ScorePattern, BigFiveError<'a>>)
        ensures
            made is Ok <==> compiles(SCORE_REGEX@),
            made matches Err(e) ==> e@ == ErrorView::SimpleError(COMPILE_MESSAGE@),
    {
        match crate::pattern::compile(SCORE_REGEX) {
            Ok(pattern) => Ok(ScorePattern { pattern }),
            Err(_) => Err(BigFiveError::SimpleError(COMPILE_MESSAGE)),
        }
    }

    /// The capture groups of the leftmost score in the line, if the line holds
    /// one: the whole match, the label and the digits.
    pub fn captures<'h>(&self, line: &'h str) -> (groups: Option<Vec<Option<&'h str>>>)
        ensures
            groups.deep_view() == first_match(SCORE_REGEX@, line@),
    {
        proof {
            use_type_invariant(self);
        }
        crate::pattern::captures(&self.pattern, line)
    }
}

} // verus!
