//! The facet scores of one domain: a mapping from facet label to score.

use vstd::prelude::*;
use crate::text::same_text;

verus! {

/// A sequence of (label, score) entries.
pub type Entries = Seq<(Seq<char>, u8)>;

/// Whether no label occurs twice among the entries.
pub open spec fn distinct_labels(entries: Entries) -> bool {
    forall|i: int, j: int|
        0 <= i < j < entries.len() ==> (#[trigger] entries[i]).0 != (#[trigger] entries[j]).0
}

/// Whether one of the entries has the label.
pub open spec fn has_label(entries: Entries, label: Seq<char>) -> bool {
    exists|i: int| 0 <= i < entries.len() && (#[trigger] entries[i]).0 == label
}

/// The mapping that a sequence of (label, score) entries builds when they are
/// entered one after the other: where a label occurs more than once, its last
/// score stays.
pub open spec fn as_map(entries: Entries) -> Map<Seq<char>, u8>
    decreases entries.len(),
{
    if entries.len() == 0 {
        Map::empty()
    } else {
        as_map(entries.drop_last()).insert(entries.last().0, entries.last().1)
    }
}

/// The labels of the mapping are those of the entries, and the mapping is
/// finite.
pub proof fn lemma_as_map_labels(entries: Entries)
    ensures
        as_map(entries).dom().finite(),
        forall|label: Seq<char>|
            #[trigger] as_map(entries).contains_key(label) <==> has_label(entries, label),
    decreases entries.len(),
{
    if entries.len() > 0 {
        let front = entries.drop_last();
        let last = entries.len() - 1;
        lemma_as_map_labels(front);
        assert forall|label: Seq<char>| #[trigger]
            as_map(entries).contains_key(label) implies has_label(entries, label) by {
            if label == entries[last].0 {
                assert(entries[last].0 == label);
            } else {
                assert(has_label(front, label));
                let i = choose|i: int| 0 <= i < front.len() && (#[trigger] front[i]).0 == label;
                assert(entries[i].0 == label);
            }
        }
        assert forall|label: Seq<char>| has_label(entries, label) implies #[trigger] as_map(
            entries,
        ).contains_key(label) by {
            let i = choose|i: int| 0 <= i < entries.len() && (#[trigger] entries[i]).0 == label;
            if i < last {
                assert(front[i].0 == label);
                assert(has_label(front, label));
            }
        }
    }
}

/// The score of a label is that of its last entry.
pub proof fn lemma_as_map_last_wins(entries: Entries, i: int)
    requires
        0 <= i < entries.len(),
        forall|j: int| i < j < entries.len() ==> (#[trigger] entries[j]).0 != entries[i].0,
    ensures
        as_map(entries).contains_key(entries[i].0),
        as_map(entries)[entries[i].0] == entries[i].1,
    decreases entries.len(),
{
    if i < entries.len() - 1 {
        let front = entries.drop_last();
        assert(entries[entries.len() - 1].0 != entries[i].0);
        assert forall|j: int| i < j < front.len() implies (#[trigger] front[j]).0
            != front[i].0 by {
            assert(front[j] == entries[j]);
        }
        lemma_as_map_last_wins(front, i);
    }
}

/// Entries with distinct labels stay so without the last of them.
proof fn lemma_front_is_distinct(entries: Entries)
    requires
        distinct_labels(entries),
        entries.len() > 0,
    ensures
        distinct_labels(entries.drop_last()),
        !has_label(entries.drop_last(), entries.last().0),
{
    let front = entries.drop_last();
    assert forall|i: int, j: int| 0 <= i < j < front.len() implies (#[trigger] front[i]).0 != (
    #[trigger] front[j]).0 by {
        assert(front[i] == entries[i] && front[j] == entries[j]);
    }
    if has_label(front, entries.last().0) {
        let i = choose|i: int| 0 <= i < front.len() && (#[trigger] front[i]).0 == entries.last().0;
        assert(entries[i].0 == entries[entries.len() - 1].0);
    }
}

/// With distinct labels, the mapping has one label for each entry.
pub proof fn lemma_as_map_len(entries: Entries)
    requires
        distinct_labels(entries),
    ensures
        as_map(entries).len() == entries.len(),
    decreases entries.len(),
{
    if entries.len() > 0 {
        let front = entries.drop_last();
        lemma_front_is_distinct(entries);
        lemma_as_map_len(front);
        lemma_as_map_labels(front);
    }
}

/// Rewriting the score of one entry enters its label anew.
pub proof fn lemma_as_map_update(entries: Entries, i: int, score: u8)
    requires
        distinct_labels(entries),
        0 <= i < entries.len(),
    ensures
        distinct_labels(entries.update(i, (entries[i].0, score))),
        as_map(entries.update(i, (entries[i].0, score))) == as_map(entries).insert(
            entries[i].0,
            score,
        ),
    decreases entries.len(),
{
    let label = entries[i].0;
    let changed = entries.update(i, (label, score));
    assert forall|a: int, b: int| 0 <= a < b < changed.len() implies (#[trigger] changed[a]).0 != (
    #[trigger] changed[b]).0 by {
        assert(changed[a].0 == entries[a].0 && changed[b].0 == entries[b].0);
    }
    let front = entries.drop_last();
    if i == entries.len() - 1 {
        assert(changed.drop_last() == front);
    } else {
        lemma_front_is_distinct(entries);
        lemma_as_map_update(front, i, score);
        assert(changed.drop_last() == front.update(i, (label, score)));
        assert(changed.last() == entries.last());
        assert(entries[i].0 != entries[entries.len() - 1].0);
    }
    assert(as_map(changed) == as_map(entries).insert(label, score));
}

/// The facet scores of one domain, by label.
///
/// No label is held twice: entering a label again replaces its score.
#[derive(Debug)]
pub struct Facets<'a> {
    entries: Vec<(&'a str, u8)>,
}

impl<'a> View for Facets<'a> {
    type V = Map<Seq<char>, u8>;

    closed spec fn view(&self) -> Map<Seq<char>, u8> {
        as_map(self.entries.deep_view())
    }
}

impl<'a> Facets<'a> {
    #[verifier::type_invariant]
    spec fn well_formed(&self) -> bool {
        distinct_labels(self.entries.deep_view())
    }

    /// A mapping without facets.
    pub fn new() -> (facets: Self)
        ensures
            facets@ == Map::<Seq<char>, u8>::empty(),
    {
        let facets = Facets { entries: Vec::new() };
        assert(facets.entries.deep_view() =~= Seq::empty());
        facets
    }

    /// The number of facets.
    pub fn len(&self) -> (n: usize)
        ensures
            self@.dom().finite(),
            n == self@.len(),
    {
        proof {
            use_type_invariant(self);
            lemma_as_map_len(self.entries.deep_view());
            lemma_as_map_labels(self.entries.deep_view());
        }
        self.entries.len()
    }

    /// The facets, each once, as (label, score) entries.
    pub fn entries(&self) -> (entries: &Vec<(&'a str, u8)>)
        ensures
            distinct_labels(entries.deep_view()),
            as_map(entries.deep_view()) == self@,
    {
        proof {
            use_type_invariant(self);
        }
        &self.entries
    }

    /// Where the label stands among the entries, if it does.
    fn position(entries: &Vec<(&'a str, u8)>, label: &str) -> (at: Option<usize>)
        ensures
            match at {
                Some(i) => i < entries.len() && entries.deep_view()[i as int].0 == label@,
                None => forall|i: int|
                    0 <= i < entries.len() ==> (#[trigger] entries.deep_view()[i]).0 != label@,
            },
    {
        let mut i: usize = 0;
        while i < entries.len()
            invariant
                0 <= i <= entries.len(),
                forall|j: int| 0 <= j < i ==> (#[trigger] entries.deep_view()[j]).0 != label@,
            decreases entries.len() - i,
        {
            if same_text(entries[i].0, label) {
                return Some(i);
            }
            i += 1;
        }
        None
    }

    /// The score of a facet, if the label is held.
    pub fn get(&self, label: &str) -> (score: Option<u8>)
        ensures
            score == (if self@.contains_key(label@) {
                Some(self@[label@])
            } else {
                None
            }),
    {
        proof {
            use_type_invariant(self);
            lemma_as_map_labels(self.entries.deep_view());
        }
        match Self::position(&self.entries, label) {
            Some(i) => {
                proof {
                    lemma_as_map_last_wins(self.entries.deep_view(), i as int);
                }
                Some(self.entries[i].1)
            },
            None => None,
        }
    }

    /// Enters a facet. A label that is already held keeps its place and takes
    /// the new score.
    pub fn insert(&mut self, label: &'a str, score: u8)
        ensures
            final(self)@ == old(self)@.insert(label@, score),
    {
        proof {
            use_type_invariant(&*self);
        }
        let mut entries: Vec<(&'a str, u8)> = Vec::new();
        std::mem::swap(&mut entries, &mut self.entries);
        let ghost before = entries.deep_view();
        match Self::position(&entries, label) {
            Some(i) => {
                let kept: &'a str = entries[i].0;
                entries.set(i, (kept, score));
                proof {
                    lemma_as_map_update(before, i as int, score);
                    assert(entries.deep_view() == before.update(
                        i as int,
                        (before[i as int].0, score),
                    ));
                }
            },
            None => {
                entries.push((label, score));
                proof {
                    let after = entries.deep_view();
                    assert(after.drop_last() == before);
                    assert(after.last() == (label@, score));
                    assert forall|a: int, b: int| 0 <= a < b < after.len() implies (
                    #[trigger] after[a]).0 != (#[trigger] after[b]).0 by {
                        assert(after[a] == before[a]);
                        if b < before.len() {
                            assert(after[b] == before[b]);
                        }
                    }
                }
            },
        }
        self.entries = entries;
    }
}

} // verus!
