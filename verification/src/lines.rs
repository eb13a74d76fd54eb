//! Cutting a block of text into its lines.

use vstd::prelude::*;

verus! {

/// The position of the first line feed in `s`, or the length of `s` where it
/// holds none.
pub open spec fn first_line_feed(s: Seq<char>) -> int
    decreases s.len(),
{
    if s.len() == 0 || s[0] == '\n' {
        0
    } else {
        1 + first_line_feed(s.drop_first())
    }
}

/// A line without the carriage return that ends it, if one does.
pub open spec fn without_carriage_return(line: Seq<char>) -> Seq<char> {
    if line.len() > 0 && line.last() == '\r' {
        line.drop_last()
    } else {
        line
    }
}

/// The lines of a text. A line ends at a line feed, or at a carriage return
/// directly followed by one; neither belongs to the line. What follows the
/// last line feed is a line of its own unless it is empty, so a text holds
/// the same lines with and without a final line ending.
pub open spec fn lines_of(s: Seq<char>) -> Seq<Seq<char>>
    decreases s.len(),
{
    if s.len() == 0 {
        Seq::empty()
    } else {
        let k = first_line_feed(s);
        if k < 0 || k >= s.len() {
            seq![s]
        } else {
            seq![without_carriage_return(s.take(k))] + lines_of(s.skip(k + 1))
        }
    }
}

/// A position that holds a line feed, with none before it, is the first line feed.
pub proof fn lemma_first_line_feed_at(s: Seq<char>, k: int)
    requires
        0 <= k <= s.len(),
        k < s.len() ==> s[k] == '\n',
        forall|i: int| 0 <= i < k ==> s[i] != '\n',
    ensures
        first_line_feed(s) == k,
    decreases s.len(),
{
    if s.len() == 0 || s[0] == '\n' {
    } else {
        let rest = s.drop_first();
        assert forall|i: int| 0 <= i < k - 1 implies rest[i] != '\n' by {
            assert(rest[i] == s[i + 1]);
        }
        lemma_first_line_feed_at(rest, k - 1);
    }
}

/// Cuts a text into its lines.
pub fn lines<'a>(text: &'a str) -> (found: Vec<&'a str>)
    ensures
        found.deep_view() == lines_of(text@),
{
    let n: usize = text.unicode_len();
    let mut found: Vec<&'a str> = Vec::new();
    let mut start: usize = 0;
    let mut i: usize = 0;
    let mut after_carriage_return: bool = false;
    proof {
        assert(text@.skip(0) == text@);
        assert(found.deep_view() + lines_of(text@) == lines_of(text@));
    }
    for c in chars: text.chars()
        invariant
            n == text@.len(),
            chars.seq() == text@,
            i == chars.index(),
            0 <= start <= i <= n,
            after_carriage_return <==> i > start && text@[i - 1] == '\r',
            forall|j: int| start <= j < i ==> text@[j] != '\n',
            lines_of(text@) == found.deep_view() + lines_of(text@.skip(start as int)),
    {
        if c == '\n' {
            let ghost rest = text@.skip(start as int);
            let ghost before = found.deep_view();
            let line: &'a str = if after_carriage_return {
                text.substring_char(start, i - 1)
            } else {
                text.substring_char(start, i)
            };
            proof {
                assert forall|j: int| 0 <= j < i - start implies rest[j] != '\n' by {
                    assert(rest[j] == text@[start + j]);
                }
                lemma_first_line_feed_at(rest, i - start);
                assert(rest.take(i - start) == text@.subrange(start as int, i as int));
                assert(rest.skip(i - start + 1) == text@.skip(i + 1));
                assert(line@ == without_carriage_return(rest.take(i - start)));
            }
            found.push(line);
            proof {
                assert(found.deep_view() == before + seq![line@]);
            }
            start = i + 1;
        }
        after_carriage_return = c == '\r';
        i += 1;
    }
    if start < n {
        let ghost rest = text@.skip(start as int);
        let ghost before = found.deep_view();
        let line: &'a str = text.substring_char(start, n);
        proof {
            assert forall|j: int| 0 <= j < n - start implies rest[j] != '\n' by {
                assert(rest[j] == text@[start + j]);
            }
            lemma_first_line_feed_at(rest, n - start);
            assert(line@ == rest);
        }
        found.push(line);
        proof {
            assert(found.deep_view() == before + seq![line@]);
        }
    } else {
        assert(text@.skip(start as int).len() == 0);
    }
    found
}

} // verus!
