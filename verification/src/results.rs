//! A whole report: the subject's name and the domains in the order in which
//! the text holds them.

use vstd::prelude::*;
use crate::blocks::{blocks_of, non_empty, pair_blocks, present, Block};
use crate::domain::{
    domain_of,
    facet_field,
    facet_fields,
    facet_lines,
    header_field,
    lemma_bad_line_rejects_domain,
    lemma_domain_error_is_input_error,
    parse_result,
    BigFiveResult,
    DomainView,
};
use crate::error::{BigFiveError, ErrorView};
use crate::field::lemma_score_out_of_range;
use crate::grammar::{
    HeaderPattern,
    ScorePattern,
    COMPILE_MESSAGE,
    HEADER_GROUP,
    RESULT_HEADER_REGEX,
    SCORE_REGEX,
};
use crate::pattern::{compiles, first_match, group_of_each_match, split_parts};
use crate::score::decimal_value;

verus! {

/// The mathematical value of a [`BigFiveResults`].
pub struct ResultsView {
    /// The subject's name.
    pub name: Seq<char>,
    /// The domains, in the order of their headers.
    pub results: Seq<DomainView>,
}

/// The values of a sequence of domains.
pub open spec fn domain_views<'a>(results: Seq<BigFiveResult<'a>>) -> Seq<DomainView> {
    results.map_values(|r: BigFiveResult<'a>| r@)
}

/// The results of one subject: a name and the domains of the report.
#[derive(Debug)]
pub struct BigFiveResults<'a> {
    name: &'a str,
    results: Vec<BigFiveResult<'a>>,
}

impl<'a> View for BigFiveResults<'a> {
    type V = ResultsView;

    closed spec fn view(&self) -> ResultsView {
        ResultsView { name: self.name@, results: domain_views(self.results@) }
    }
}

impl<'a> BigFiveResults<'a> {
    /// The subject's name.
    pub fn name(&self) -> (name: &'a str)
        ensures
            name@ == self@.name,
    {
        self.name
    }

    /// The domains, in the order of their headers.
    pub fn results(&self) -> (results: &Vec<BigFiveResult<'a>>)
        ensures
            domain_views(results@) == self@.results,
    {
        &self.results
    }
}

/// The domains of the (header, block) pairs, in order; or the error of the
/// first pair that gives no domain.
pub open spec fn domains_of(blocks: Seq<Block>) -> Result<Seq<DomainView>, ErrorView>
    decreases blocks.len(),
{
    if blocks.len() == 0 {
        Ok(Seq::empty())
    } else {
        match domains_of(blocks.drop_last()) {
            Err(e) => Err(e),
            Ok(domains) => match domain_of(blocks.last().0, blocks.last().1) {
                Err(e) => Err(e),
                Ok(domain) => Ok(domains.push(domain)),
            },
        }
    }
}

/// The header lines that the header pattern finds in a report, in order.
pub open spec fn headers_of(input: Seq<char>) -> Seq<Seq<char>> {
    present(group_of_each_match(RESULT_HEADER_REGEX@, input, HEADER_GROUP as int))
}

/// The blocks of a report: the parts between its headers that are not empty,
/// in order.
pub open spec fn bodies_of(input: Seq<char>) -> Seq<Seq<char>> {
    non_empty(split_parts(RESULT_HEADER_REGEX@, input))
}

/// The results that a report gives for a subject.
///
/// Both patterns have to compile. The header pattern finds the headers and
/// splits the report at them; headers and blocks are paired, and each pair
/// gives one domain. Whatever fails first rejects the whole report.
pub open spec fn report_of(name: Seq<char>, input: Seq<char>) -> Result<ResultsView, ErrorView> {
    if !compiles(RESULT_HEADER_REGEX@) || !compiles(SCORE_REGEX@) {
        Err(ErrorView::SimpleError(COMPILE_MESSAGE@))
    } else {
        match blocks_of(
            group_of_each_match(RESULT_HEADER_REGEX@, input, HEADER_GROUP as int),
            split_parts(RESULT_HEADER_REGEX@, input),
        ) {
            Err(e) => Err(e),
            Ok(blocks) => match domains_of(blocks) {
                Err(e) => Err(e),
                Ok(results) => Ok(ResultsView { name, results }),
            },
        }
    }
}

/// The mathematical value of the domains that were built, or of the error
/// that rejected them.
pub open spec fn domains_view<'a>(
    built: Result<Vec<BigFiveResult<'a>>, BigFiveError<'a>>,
) -> Result<Seq<DomainView>, ErrorView> {
    match built {
        Ok(domains) => Ok(domain_views(domains@)),
        Err(e) => Err(e@),
    }
}

/// The mathematical value of the results that were built, or of the error
/// that rejected the report.
pub open spec fn report_view<'a>(built: Result<BigFiveResults<'a>, BigFiveError<'a>>) -> Result<
    ResultsView,
    ErrorView,
> {
    match built {
        Ok(results) => Ok(results@),
        Err(e) => Err(e@),
    }
}

/// Once a pair gives no domain, no further pair changes the error.
pub proof fn lemma_first_failure_stays(blocks: Seq<Block>, n: int)
    requires
        0 <= n <= blocks.len(),
        domains_of(blocks.take(n)) is Err,
    ensures
        domains_of(blocks) == domains_of(blocks.take(n)),
    decreases blocks.len() - n,
{
    if n == blocks.len() {
        assert(blocks.take(n) == blocks);
    } else {
        assert(blocks.take(n + 1).drop_last() == blocks.take(n));
        lemma_first_failure_stays(blocks, n + 1);
    }
}

/// Where every pair gives a domain, the domains are those of the pairs, in
/// order; where one gives none, there are no domains.
pub proof fn lemma_domains_are_of_blocks(blocks: Seq<Block>)
    ensures
        domains_of(blocks) is Ok <==> forall|i: int|
            0 <= i < blocks.len() ==> domain_of(
                (#[trigger] blocks[i]).0,
                blocks[i].1,
            ) is Ok,
        domains_of(blocks) is Ok ==> domains_of(blocks)->Ok_0.len() == blocks.len(),
        domains_of(blocks) is Ok ==> forall|i: int|
            0 <= i < blocks.len() ==> domain_of((#[trigger] blocks[i]).0, blocks[i].1) == Ok::<
                _,
                ErrorView,
            >(domains_of(blocks)->Ok_0[i]),
    decreases blocks.len(),
{
    if blocks.len() > 0 {
        let front = blocks.drop_last();
        lemma_domains_are_of_blocks(front);
        if domains_of(blocks) is Ok {
            assert forall|i: int| 0 <= i < blocks.len() implies domain_of(
                (#[trigger] blocks[i]).0,
                blocks[i].1,
            ) == Ok::<_, ErrorView>(domains_of(blocks)->Ok_0[i]) by {
                if i < blocks.len() - 1 {
                    assert(blocks[i] == front[i]);
                }
            }
        } else {
            if domains_of(front) is Ok {
                assert(domain_of(blocks[blocks.len() - 1].0, blocks[blocks.len() - 1].1) is Err);
            } else {
                let i = choose|i: int|
                    0 <= i < front.len() && !(domain_of((#[trigger] front[i]).0, front[i].1) is Ok);
                assert(blocks[i] == front[i]);
            }
        }
    }
}

/// The pairs of a report are rejected by an input error only.
pub proof fn lemma_domains_error_is_input_error(blocks: Seq<Block>)
    requires
        domains_of(blocks) is Err,
    ensures
        domains_of(blocks)->Err_0 is InputError,
    decreases blocks.len(),
{
    if blocks.len() > 0 {
        if domains_of(blocks.drop_last()) is Err {
            lemma_domains_error_is_input_error(blocks.drop_last());
        } else {
            lemma_domain_error_is_input_error(blocks.last().0, blocks.last().1);
        }
    }
}

/// A report with as many headers as blocks, each pair of which gives a domain,
/// is read: it has one domain for each header, in the order of the headers.
pub proof fn lemma_one_domain_per_header(name: Seq<char>, input: Seq<char>)
    requires
        compiles(RESULT_HEADER_REGEX@),
        compiles(SCORE_REGEX@),
        headers_of(input).len() == bodies_of(input).len(),
        forall|i: int|
            0 <= i < headers_of(input).len() ==> domain_of(
                #[trigger] headers_of(input)[i],
                bodies_of(input)[i],
            ) is Ok,
    ensures
        report_of(name, input) is Ok,
        report_of(name, input)->Ok_0.name == name,
        report_of(name, input)->Ok_0.results.len() == headers_of(input).len(),
        forall|i: int|
            0 <= i < headers_of(input).len() ==> domain_of(
                #[trigger] headers_of(input)[i],
                bodies_of(input)[i],
            ) == Ok::<_, ErrorView>(report_of(name, input)->Ok_0.results[i]),
{
    let heads = headers_of(input);
    let bodies = bodies_of(input);
    let blocks = heads.zip_with(bodies);
    assert forall|i: int| 0 <= i < blocks.len() implies domain_of(
        (#[trigger] blocks[i]).0,
        blocks[i].1,
    ) is Ok by {
        assert(domain_of(heads[i], bodies[i]) is Ok);
    }
    lemma_domains_are_of_blocks(blocks);
    assert forall|i: int| 0 <= i < heads.len() implies domain_of(
        #[trigger] heads[i],
        bodies[i],
    ) == Ok::<_, ErrorView>(report_of(name, input)->Ok_0.results[i]) by {
        assert(blocks[i] == (heads[i], bodies[i]));
    }
}

/// A report that is read has one domain for each header, in the order of the
/// headers: the domain that the header and the block below it give.
pub proof fn lemma_read_report_follows_headers(name: Seq<char>, input: Seq<char>)
    requires
        report_of(name, input) is Ok,
    ensures
        report_of(name, input)->Ok_0.name == name,
        headers_of(input).len() == bodies_of(input).len(),
        report_of(name, input)->Ok_0.results.len() == headers_of(input).len(),
        forall|i: int|
            0 <= i < headers_of(input).len() ==> domain_of(
                #[trigger] headers_of(input)[i],
                bodies_of(input)[i],
            ) == Ok::<_, ErrorView>(report_of(name, input)->Ok_0.results[i]),
{
    let heads = headers_of(input);
    let bodies = bodies_of(input);
    let blocks = heads.zip_with(bodies);
    lemma_domains_are_of_blocks(blocks);
    assert forall|i: int| 0 <= i < heads.len() implies domain_of(
        #[trigger] heads[i],
        bodies[i],
    ) == Ok::<_, ErrorView>(report_of(name, input)->Ok_0.results[i]) by {
        assert(blocks[i] == (heads[i], bodies[i]));
    }
}

/// A pair that gives no domain rejects the report as an input error: no part
/// of the results is returned.
pub proof fn lemma_bad_domain_rejects_report(name: Seq<char>, input: Seq<char>, k: int)
    requires
        compiles(RESULT_HEADER_REGEX@),
        compiles(SCORE_REGEX@),
        headers_of(input).len() == bodies_of(input).len(),
        0 <= k < headers_of(input).len(),
        domain_of(headers_of(input)[k], bodies_of(input)[k]) is Err,
    ensures
        report_of(name, input) is Err,
        report_of(name, input)->Err_0 is InputError,
{
    let heads = headers_of(input);
    let bodies = bodies_of(input);
    let blocks = heads.zip_with(bodies);
    lemma_domains_are_of_blocks(blocks);
    assert(blocks[k] == (heads[k], bodies[k]));
    lemma_domains_error_is_input_error(blocks);
}

/// A header line without a field rejects the report as an input error.
pub proof fn lemma_bad_header_rejects_report(name: Seq<char>, input: Seq<char>, k: int)
    requires
        compiles(RESULT_HEADER_REGEX@),
        compiles(SCORE_REGEX@),
        headers_of(input).len() == bodies_of(input).len(),
        0 <= k < headers_of(input).len(),
        header_field(headers_of(input)[k]) is Err,
    ensures
        report_of(name, input) is Err,
        report_of(name, input)->Err_0 is InputError,
{
    lemma_bad_domain_rejects_report(name, input, k);
}

/// A facet line without a field rejects the report as an input error,
/// whatever the other lines hold.
pub proof fn lemma_bad_line_rejects_report(name: Seq<char>, input: Seq<char>, k: int, i: int)
    requires
        compiles(RESULT_HEADER_REGEX@),
        compiles(SCORE_REGEX@),
        headers_of(input).len() == bodies_of(input).len(),
        0 <= k < headers_of(input).len(),
        0 <= i < facet_lines(bodies_of(input)[k]).len(),
        facet_field(facet_lines(bodies_of(input)[k])[i]) is Err,
    ensures
        report_of(name, input) is Err,
        report_of(name, input)->Err_0 is InputError,
{
    let header = headers_of(input)[k];
    let body = bodies_of(input)[k];
    assert(facet_fields(body)[i] == facet_field(facet_lines(body)[i]));
    lemma_bad_line_rejects_domain(header_field(header), facet_fields(body), i);
    lemma_bad_domain_rejects_report(name, input, k);
}

/// A header or facet line on which the score pattern finds a digit run that
/// denotes 256 or more rejects the report as an input error.
pub proof fn lemma_score_out_of_range_rejects_report(
    name: Seq<char>,
    input: Seq<char>,
    k: int,
    line: Seq<char>,
)
    requires
        compiles(RESULT_HEADER_REGEX@),
        compiles(SCORE_REGEX@),
        headers_of(input).len() == bodies_of(input).len(),
        0 <= k < headers_of(input).len(),
        line == headers_of(input)[k] || facet_lines(bodies_of(input)[k]).contains(line),
        first_match(SCORE_REGEX@, line) is Some,
        first_match(SCORE_REGEX@, line)->0.len() == 3,
        first_match(SCORE_REGEX@, line)->0[0] is Some,
        first_match(SCORE_REGEX@, line)->0[1] is Some,
        first_match(SCORE_REGEX@, line)->0[2] is Some,
        decimal_value(first_match(SCORE_REGEX@, line)->0[2]->0) >= 256,
    ensures
        report_of(name, input) is Err,
        report_of(name, input)->Err_0 is InputError,
{
    lemma_score_out_of_range(first_match(SCORE_REGEX@, line)->0);
    if line == headers_of(input)[k] {
        lemma_bad_header_rejects_report(name, input, k);
    } else {
        let lines = facet_lines(bodies_of(input)[k]);
        let i = choose|i: int| 0 <= i < lines.len() && lines[i] == line;
        lemma_bad_line_rejects_report(name, input, k, i);
    }
}

/// A report is rejected by a setup error exactly where a pattern does not
/// compile, and by an input error otherwise.
pub proof fn lemma_kind_of_rejection(name: Seq<char>, input: Seq<char>)
    requires
        report_of(name, input) is Err,
    ensures
        report_of(name, input)->Err_0 is SimpleError <==> !compiles(RESULT_HEADER_REGEX@)
            || !compiles(SCORE_REGEX@),
        report_of(name, input)->Err_0 is InputError <==> compiles(RESULT_HEADER_REGEX@)
            && compiles(SCORE_REGEX@),
{
    if compiles(RESULT_HEADER_REGEX@) && compiles(SCORE_REGEX@) {
        let blocks = blocks_of(
            group_of_each_match(RESULT_HEADER_REGEX@, input, HEADER_GROUP as int),
            split_parts(RESULT_HEADER_REGEX@, input),
        );
        if blocks is Ok {
            lemma_domains_error_is_input_error(blocks->Ok_0);
        }
    }
}

/// Reads the domain of each (header, block) pair, in order, and stops at the
/// first pair that gives none.
pub fn parse_blocks<'a>(pattern: &ScorePattern, blocks: &Vec<(&'a str, &'a str)>) -> (built:
    Result<Vec<BigFiveResult<'a>>, BigFiveError<'a>>)
    ensures
        domains_view(built) == domains_of(blocks.deep_view()),
{
    let ghost all = blocks.deep_view();
    let mut results: Vec<BigFiveResult<'a>> = Vec::new();
    assert(all.take(0) == Seq::<Block>::empty());
    assert(domain_views(results@) == Seq::<DomainView>::empty());
    for i in 0..blocks.len()
        invariant
            all == blocks.deep_view(),
            domains_of(all.take(i as int)) == Ok::<_, ErrorView>(domain_views(results@)),
    {
        let ghost before = domain_views(results@);
        let (header, body) = blocks[i];
        proof {
            assert(all.take(i + 1).drop_last() == all.take(i as int));
            assert(all.take(i + 1).last() == (header@, body@));
        }
        match parse_result(pattern, header, body) {
            Ok(result) => {
                results.push(result);
                assert(domain_views(results@) == before.push(result@));
            },
            Err(e) => {
                proof {
                    lemma_first_failure_stays(all, i + 1);
                }
                return Err(e);
            },
        }
    }
    assert(all.take(blocks.len() as int) == all);
    Ok(results)
}

/// Reads a report: the scored domains of the subject called `name`, from the
/// text `input` of the report.
///
/// The results hold one domain for each header of the report, in the order of
/// the headers. Where the text does not follow the grammar, an input error is
/// returned, and no part of the results; where a pattern of the grammar does
/// not compile, a setup error.
pub fn new<'a>(name: &'a str, input: &'a str) -> (built: Result<
    BigFiveResults<'a>,
    BigFiveError<'a>,
>)
    ensures
        report_view(built) == report_of(name@, input@),
        built matches Ok(results) ==> results@.name == name@ && results@.results.len()
            == headers_of(input@).len(),
{
    proof {
        if report_of(name@, input@) is Ok {
            lemma_read_report_follows_headers(name@, input@);
        }
    }
    let header_pattern = match HeaderPattern::new() {
        Ok(pattern) => pattern,
        Err(e) => {
            return Err(e);
        },
    };
    let score_pattern = match ScorePattern::new() {
        Ok(pattern) => pattern,
        Err(e) => {
            return Err(e);
        },
    };
    let headers = header_pattern.headers(input);
    let parts = header_pattern.split(input);
    let blocks = match pair_blocks(&headers, &parts) {
        Ok(blocks) => blocks,
        Err(e) => {
            return Err(e);
        },
    };
    match parse_blocks(&score_pattern, &blocks) {
        Ok(results) => Ok(BigFiveResults { name, results }),
        Err(e) => Err(e),
    }
}

} // verus!
