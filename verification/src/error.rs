//! The two ways in which reading a report can fail.

use vstd::prelude::*;

verus! {

/// Why a report could not be read.
#[derive(Debug, Clone, Copy)]
pub enum BigFiveError<'a> {
    /// A pattern that the parser is built on could not be constructed.
    SimpleError(&'a str),
    /// The text does not follow the header / facet grammar.
    InputError(&'a str),
}

/// The mathematical value of a [`BigFiveError`]: its kind and the description
/// it carries.
pub enum ErrorView {
    /// A setup error with its description.
    SimpleError(Seq<char>),
    /// An input error with its description.
    InputError(Seq<char>),
}

impl<'a> View for BigFiveError<'a> {
    type V = ErrorView;

    open spec fn view(&self) -> ErrorView {
        match *self {
            BigFiveError::SimpleError(m) => ErrorView::SimpleError(m@),
            BigFiveError::InputError(m) => ErrorView::InputError(m@),
        }
    }
}

impl<'a> BigFiveError<'a> {
    /// The description that the error carries.
    pub fn message(&self) -> (m: &'a str)
        ensures
            self@ == ErrorView::SimpleError(m@) || self@ == ErrorView::InputError(m@),
    {
        match *self {
            BigFiveError::SimpleError(m) => m,
            BigFiveError::InputError(m) => m,
        }
    }
}

} // verus!
