//! Pairing each header of a report with the block of facet lines below it.

use vstd::prelude::*;
use crate::error::{BigFiveError, ErrorView};

verus! {

/// The description carried by the error for a report whose headers and blocks
/// do not pair up.
pub const MISMATCH_MESSAGE: &'static str = "Headers did not match number of results";

/// The texts that are there, in order.
pub open spec fn present(texts: Seq<Option<Seq<char>>>) -> Seq<Seq<char>> {
    texts.filter_map(|t: Option<Seq<char>>| t)
}

/// The parts that hold at least one character, in order.
pub open spec fn non_empty(parts: Seq<Seq<char>>) -> Seq<Seq<char>> {
    parts.filter(|p: Seq<char>| p.len() > 0)
}

/// A header line together with the block of text below it.
pub type Block = (Seq<char>, Seq<char>);

/// The (header, block) pairs of a report, from the headers found in it and the
/// parts into which the headers split it.
///
/// An empty part is what two headers in a row, or a header at the very start
/// or end, leave between them: it stands for no block and is dropped. The
/// headers and the remaining parts pair up in order if there are as many of
/// one as of the other; else the report is rejected.
pub open spec fn blocks_of(headers: Seq<Option<Seq<char>>>, parts: Seq<Seq<char>>) -> Result<
    Seq<Block>,
    ErrorView,
> {
    let heads = present(headers);
    let bodies = non_empty(parts);
    if heads.len() == bodies.len() {
        Ok(heads.zip_with(bodies))
    } else {
        Err(ErrorView::InputError(MISMATCH_MESSAGE@))
    }
}

/// The mathematical value of the pairs that were made, or of the error that
/// rejected the report.
pub open spec fn paired_view<'a>(
    paired: Result<Vec<(&'a str, &'a str)>, BigFiveError<'a>>,
) -> Result<Seq<Block>, ErrorView> {
    match paired {
        Ok(pairs) => Ok(pairs.deep_view()),
        Err(e) => Err(e@),
    }
}

/// The headers that are there, in order.
fn present_headers<'a>(headers: &Vec<Option<&'a str>>) -> (heads: Vec<&'a str>)
    ensures
        heads.deep_view() == present(headers.deep_view()),
{
    let mut heads: Vec<&'a str> = Vec::new();
    let ghost all = headers.deep_view();
    let ghost keep = |t: Option<Seq<char>>| t;
    assert(all.take(0).filter_map(keep) == heads.deep_view());
    for i in 0..headers.len()
        invariant
            all == headers.deep_view(),
            keep == |t: Option<Seq<char>>| t,
            heads.deep_view() == all.take(i as int).filter_map(keep),
    {
        let ghost before = heads.deep_view();
        proof {
            all.lemma_filter_map_take_succ(keep, i as int);
        }
        match headers[i] {
            Some(header) => {
                heads.push(header);
                assert(heads.deep_view() == before + seq![header@]);
            },
            None => {},
        }
    }
    assert(all.take(headers.len() as int) == all);
    heads
}

/// The parts that hold at least one character, in order.
fn non_empty_parts<'a>(parts: &Vec<&'a str>) -> (bodies: Vec<&'a str>)
    ensures
        bodies.deep_view() == non_empty(parts.deep_view()),
{
    let mut bodies: Vec<&'a str> = Vec::new();
    let ghost all = parts.deep_view();
    let ghost keep = |p: Seq<char>| p.len() > 0;
    proof {
        reveal(Seq::filter);
        assert(all.take(0).filter(keep) == bodies.deep_view());
    }
    for i in 0..parts.len()
        invariant
            all == parts.deep_view(),
            keep == |p: Seq<char>| p.len() > 0,
            bodies.deep_view() == all.take(i as int).filter(keep),
    {
        let ghost before = bodies.deep_view();
        let part: &'a str = parts[i];
        proof {
            all.take(i as int).lemma_filter_push(part@, keep);
            assert(all.take(i + 1) == all.take(i as int).push(part@));
        }
        if !part.is_empty() {
            bodies.push(part);
            assert(bodies.deep_view() == before.push(part@));
        }
    }
    assert(all.take(parts.len() as int) == all);
    bodies
}

/// Pairs each header with the block below it.
///
/// `headers` holds the header lines found in the report, `parts` what lies
/// between them. The result is that of [`blocks_of`].
pub fn pair_blocks<'a>(headers: &Vec<Option<&'a str>>, parts: &Vec<&'a str>) -> (paired: Result<
    Vec<(&'a str, &'a str)>,
    BigFiveError<'a>,
>)
    ensures
        paired_view(paired) == blocks_of(headers.deep_view(), parts.deep_view()),
{
    let heads = present_headers(headers);
    let bodies = non_empty_parts(parts);
    if heads.len() != bodies.len() {
        return Err(BigFiveError::InputError(MISMATCH_MESSAGE));
    }
    let mut pairs: Vec<(&'a str, &'a str)> = Vec::new();
    for i in 0..heads.len()
        invariant
            heads.len() == bodies.len(),
            pairs.len() == i,
            forall|j: int|
                0 <= j < i ==> (#[trigger] pairs.deep_view()[j]) == (
                    heads.deep_view()[j],
                    bodies.deep_view()[j],
                ),
    {
        let ghost before = pairs.deep_view();
        pairs.push((heads[i], bodies[i]));
        assert forall|j: int| 0 <= j < i + 1 implies (#[trigger] pairs.deep_view()[j]) == (
            heads.deep_view()[j],
            bodies.deep_view()[j],
        ) by {
            if j < i {
                assert(pairs.deep_view()[j] == before[j]);
            }
        }
    }
    assert(pairs.deep_view() == heads.deep_view().zip_with(bodies.deep_view()));
    Ok(pairs)
}

} // verus!
