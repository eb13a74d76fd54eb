//! One scored domain of a report: its name, its overall score and its facets.

use vstd::prelude::*;
use crate::blocks::non_empty;
use crate::error::{BigFiveError, ErrorView};
use crate::facets::{as_map, lemma_as_map_last_wins, Entries, Facets};
use crate::field::{field_view, line_of, parse_score_line, Field};
use crate::grammar::{ScorePattern, SCORE_REGEX};
use crate::lines::{lines, lines_of};
use crate::pattern::first_match;

verus! {

/// The description carried by the error for a header line in which the score
/// pattern finds nothing.
pub const HEADER_MESSAGE: &'static str = "Could not parse header";

/// The description carried by the error for a facet line in which the score
/// pattern finds nothing.
pub const FACET_MESSAGE: &'static str = "Could not parse field score";

/// The mathematical value of a [`BigFiveResult`].
pub struct DomainView {
    /// The domain's name, as the header gives it.
    pub name: Seq<char>,
    /// The domain's overall score.
    pub overall_score: u8,
    /// The facet scores by label.
    pub facets: Map<Seq<char>, u8>,
}

/// One domain of a report: its name, its overall score and its facet scores.
#[derive(Debug)]
pub struct BigFiveResult<'a> {
    name: &'a str,
    overall_score: u8,
    facets: Facets<'a>,
}

impl<'a> View for BigFiveResult<'a> {
    type V = DomainView;

    closed spec fn view(&self) -> DomainView {
        DomainView {
            name: self.name@,
            overall_score: self.overall_score,
            facets: self.facets@,
        }
    }
}

impl<'a> BigFiveResult<'a> {
    /// The domain's name.
    pub fn name(&self) -> (name: &'a str)
        ensures
            name@ == self@.name,
    {
        self.name
    }

    /// The domain's overall score.
    pub fn overall_score(&self) -> (score: u8)
        ensures
            score == self@.overall_score,
    {
        self.overall_score
    }

    /// The domain's facet scores.
    pub fn facets(&self) -> (facets: &Facets<'a>)
        ensures
            facets@ == self@.facets,
    {
        &self.facets
    }
}

/// The mathematical value of a domain that was built, or of the error that
/// rejected it.
pub open spec fn built_view<'a>(built: Result<BigFiveResult<'a>, BigFiveError<'a>>) -> Result<
    DomainView,
    ErrorView,
> {
    match built {
        Ok(domain) => Ok(domain@),
        Err(e) => Err(e@),
    }
}

/// The mathematical values of what was read from the lines of a block.
pub open spec fn field_views<'a>(read: Seq<Result<(&'a str, u8), BigFiveError<'a>>>) -> Seq<
    Field,
> {
    read.map_values(|r: Result<(&'a str, u8), BigFiveError<'a>>| field_view(r))
}

/// The (label, score) entries that the lines of a block give, in order; or the
/// error of the first line that was rejected.
pub open spec fn entries_of(fields: Seq<Field>) -> Result<Entries, ErrorView>
    decreases fields.len(),
{
    if fields.len() == 0 {
        Ok(Seq::empty())
    } else {
        match entries_of(fields.drop_last()) {
            Err(e) => Err(e),
            Ok(entries) => match fields.last() {
                Err(e) => Err(e),
                Ok(entry) => Ok(entries.push(entry)),
            },
        }
    }
}

/// The domain that the field of a header and the fields of the lines below it
/// give.
///
/// The header gives the name and the overall score. Each line gives one facet;
/// where a label comes again, its last score stays. A header or a line that
/// was rejected rejects the whole domain: the header first, then the lines in
/// order.
pub open spec fn assembled(header: Field, fields: Seq<Field>) -> Result<DomainView, ErrorView> {
    match header {
        Err(e) => Err(e),
        Ok((name, overall_score)) => match entries_of(fields) {
            Err(e) => Err(e),
            Ok(entries) => Ok(DomainView { name, overall_score, facets: as_map(entries) }),
        },
    }
}

/// What reading a header line gives.
pub open spec fn header_field(header: Seq<char>) -> Field {
    line_of(first_match(SCORE_REGEX@, header), HEADER_MESSAGE@)
}

/// What reading a facet line gives.
pub open spec fn facet_field(line: Seq<char>) -> Field {
    line_of(first_match(SCORE_REGEX@, line), FACET_MESSAGE@)
}

/// The lines of a block that are read as facet lines: those that are not
/// empty.
pub open spec fn facet_lines(body: Seq<char>) -> Seq<Seq<char>> {
    non_empty(lines_of(body))
}

/// What reading each facet line of a block gives.
pub open spec fn facet_fields(body: Seq<char>) -> Seq<Field> {
    facet_lines(body).map_values(|line: Seq<char>| facet_field(line))
}

/// The domain that a header line and the block of text below it give: the
/// header and each line of the block that is not empty are read as score
/// lines, and the fields assembled.
pub open spec fn domain_of(header: Seq<char>, body: Seq<char>) -> Result<DomainView, ErrorView> {
    assembled(header_field(header), facet_fields(body))
}

/// Once a line was rejected, no further line changes the error.
pub proof fn lemma_first_error_stays(fields: Seq<Field>, n: int)
    requires
        0 <= n <= fields.len(),
        entries_of(fields.take(n)) is Err,
    ensures
        entries_of(fields) == entries_of(fields.take(n)),
    decreases fields.len() - n,
{
    if n == fields.len() {
        assert(fields.take(n) == fields);
    } else {
        assert(fields.take(n + 1).drop_last() == fields.take(n));
        lemma_first_error_stays(fields, n + 1);
    }
}

/// The lines give entries exactly where none of them was rejected, and then
/// each line gives its entry, in order.
pub proof fn lemma_entries_are_fields(fields: Seq<Field>)
    ensures
        entries_of(fields) is Ok <==> forall|i: int|
            0 <= i < fields.len() ==> (#[trigger] fields[i]) is Ok,
        entries_of(fields) is Ok ==> entries_of(fields)->Ok_0.len() == fields.len(),
        entries_of(fields) is Ok ==> forall|i: int|
            0 <= i < fields.len() ==> (#[trigger] fields[i]) == Ok::<_, ErrorView>(
                entries_of(fields)->Ok_0[i],
            ),
    decreases fields.len(),
{
    if fields.len() > 0 {
        let front = fields.drop_last();
        let last = fields.len() - 1;
        lemma_entries_are_fields(front);
        if entries_of(fields) is Ok {
            assert forall|i: int| 0 <= i < fields.len() implies (#[trigger] fields[i]) == Ok::<
                _,
                ErrorView,
            >(entries_of(fields)->Ok_0[i]) by {
                if i < last {
                    assert(fields[i] == front[i]);
                }
            }
        } else if entries_of(front) is Ok {
            assert(fields[last] is Err);
        } else {
            let i = choose|i: int| 0 <= i < front.len() && !((#[trigger] front[i]) is Ok);
            assert(fields[i] == front[i]);
        }
    }
}

/// The lines of a block are rejected by the error of one of them.
pub proof fn lemma_entries_error_is_of_a_line(fields: Seq<Field>)
    requires
        entries_of(fields) is Err,
    ensures
        exists|i: int|
            0 <= i < fields.len() && (#[trigger] fields[i]) == Err::<(Seq<char>, u8), _>(
                entries_of(fields)->Err_0,
            ),
    decreases fields.len(),
{
    let front = fields.drop_last();
    if entries_of(front) is Err {
        lemma_entries_error_is_of_a_line(front);
        let i = choose|i: int|
            0 <= i < front.len() && (#[trigger] front[i]) == Err::<(Seq<char>, u8), _>(
                entries_of(front)->Err_0,
            );
        assert(fields[i] == front[i]);
    } else {
        assert(fields[fields.len() - 1] == fields.last());
    }
}

/// A line that was rejected rejects the domain: nothing is built from the
/// lines that were read.
pub proof fn lemma_bad_line_rejects_domain(header: Field, fields: Seq<Field>, i: int)
    requires
        0 <= i < fields.len(),
        fields[i] is Err,
    ensures
        assembled(header, fields) is Err,
{
    lemma_entries_are_fields(fields);
}

/// A header that was rejected rejects the domain with its own error.
pub proof fn lemma_bad_header_rejects_domain(header: Field, fields: Seq<Field>)
    requires
        header is Err,
    ensures
        assembled(header, fields) == Err::<DomainView, _>(header->Err_0),
{
}

/// A domain is rejected by an input error only.
pub proof fn lemma_domain_error_is_input_error(header: Seq<char>, body: Seq<char>)
    requires
        domain_of(header, body) is Err,
    ensures
        domain_of(header, body)->Err_0 is InputError,
{
    if header_field(header) is Ok {
        let fields = facet_fields(body);
        lemma_entries_error_is_of_a_line(fields);
        let i = choose|i: int|
            0 <= i < fields.len() && (#[trigger] fields[i]) == Err::<(Seq<char>, u8), _>(
                entries_of(fields)->Err_0,
            );
        assert(fields[i] == facet_field(facet_lines(body)[i]));
    }
}

/// Where a label stands on several lines of a block, the domain has the score
/// of the last of them.
pub proof fn lemma_last_line_of_label_wins(header: Field, fields: Seq<Field>, i: int)
    requires
        assembled(header, fields) is Ok,
        0 <= i < fields.len(),
        forall|j: int| i < j < fields.len() ==> (#[trigger] fields[j])->Ok_0.0 != fields[i]->Ok_0.0,
    ensures
        fields[i] is Ok,
        assembled(header, fields)->Ok_0.facets.contains_key(fields[i]->Ok_0.0),
        assembled(header, fields)->Ok_0.facets[fields[i]->Ok_0.0] == fields[i]->Ok_0.1,
{
    lemma_entries_are_fields(fields);
    let entries = entries_of(fields)->Ok_0;
    assert forall|j: int| i < j < entries.len() implies (#[trigger] entries[j]).0
        != entries[i].0 by {
        assert(fields[j] == Ok::<_, ErrorView>(entries[j]));
    }
    lemma_as_map_last_wins(entries, i);
}

/// Builds a domain from what was read from its header and from the lines of
/// its block.
pub fn assemble<'a>(
    header: Result<(&'a str, u8), BigFiveError<'a>>,
    fields: &Vec<Result<(&'a str, u8), BigFiveError<'a>>>,
) -> (built: Result<BigFiveResult<'a>, BigFiveError<'a>>)
    ensures
        built_view(built) == assembled(field_view(header), field_views(fields@)),
{
    let (name, overall_score) = match header {
        Ok(field) => field,
        Err(e) => {
            return Err(e);
        },
    };
    let ghost all = field_views(fields@);
    let ghost mut entries: Entries = Seq::empty();
    let mut facets = Facets::new();
    assert(all.take(0) == Seq::<Field>::empty());
    for i in 0..fields.len()
        invariant
            all == field_views(fields@),
            field_view(header) == Ok::<_, ErrorView>((name@, overall_score)),
            entries_of(all.take(i as int)) == Ok::<_, ErrorView>(entries),
            facets@ == as_map(entries),
    {
        proof {
            assert(all.take(i + 1).drop_last() == all.take(i as int));
            assert(all.take(i + 1).last() == field_view(fields[i as int]));
        }
        match fields[i] {
            Ok((label, score)) => {
                facets.insert(label, score);
                proof {
                    let longer = entries.push((label@, score));
                    assert(longer.drop_last() == entries);
                    entries = longer;
                }
            },
            Err(e) => {
                proof {
                    lemma_first_error_stays(all, i + 1);
                }
                return Err(e);
            },
        }
    }
    assert(all.take(fields.len() as int) == all);
    Ok(BigFiveResult { name, overall_score, facets })
}

/// Reads one domain from its header line and the block of facet lines below
/// it. Empty lines in the block are passed over.
pub fn parse_result<'a>(pattern: &ScorePattern, header: &'a str, body: &'a str) -> (built:
    Result<BigFiveResult<'a>, BigFiveError<'a>>)
    ensures
        built_view(built) == domain_of(header@, body@),
{
    let header_read = parse_score_line(pattern, header, HEADER_MESSAGE);
    let all_lines = lines(body);
    let ghost texts = all_lines.deep_view();
    let ghost keep = |p: Seq<char>| p.len() > 0;
    let ghost read = |line: Seq<char>| facet_field(line);
    let mut fields: Vec<Result<(&'a str, u8), BigFiveError<'a>>> = Vec::new();
    proof {
        reveal(Seq::filter);
        assert(texts.take(0).filter(keep).map_values(read) == field_views(fields@));
    }
    for i in 0..all_lines.len()
        invariant
            texts == all_lines.deep_view(),
            keep == |p: Seq<char>| p.len() > 0,
            read == |line: Seq<char>| facet_field(line),
            field_views(fields@) == texts.take(i as int).filter(keep).map_values(read),
    {
        let ghost before = field_views(fields@);
        let line: &'a str = all_lines[i];
        proof {
            texts.take(i as int).lemma_filter_push(line@, keep);
            assert(texts.take(i + 1) == texts.take(i as int).push(line@));
        }
        if !line.is_empty() {
            let field = parse_score_line(pattern, line, FACET_MESSAGE);
            fields.push(field);
            assert(field_views(fields@) == before.push(field_view(field)));
        }
    }
    assert(texts.take(all_lines.len() as int) == texts);
    assemble(header_read, &fields)
}

} // verus!
