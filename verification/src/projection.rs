//! The projection of results onto JSON values.
//!
//! A report becomes one object: the subject's name under `NAME`, and each
//! domain under its own name, as an object with the overall score and the
//! facet scores.

use vstd::prelude::*;
use crate::domain::{
    assembled,
    entries_of,
    lemma_last_line_of_label_wins,
    BigFiveResult,
    DomainView,
};
use crate::error::ErrorView;
use crate::facets::as_map;
use crate::field::Field;
use crate::json::{
    empty_object,
    json_of,
    members_of,
    number_value,
    object_value,
    set_member,
    text_value,
    JsonObject,
    JsonView,
    Members,
};
use crate::results::{domain_views, BigFiveResults, ResultsView};

verus! {

/// The key of the subject's name in the object of a report.
pub const NAME_KEY: &'static str = "NAME";

/// The key of the overall score in the object of a domain.
pub const OVERALL_SCORE_KEY: &'static str = "Overall Score";

/// The key of the facet scores in the object of a domain.
pub const FACETS_KEY: &'static str = "Facets";

/// The JSON number of a score.
pub open spec fn score_json(score: u8) -> JsonView {
    JsonView::Number(score as int)
}

/// The members of the facets object: each facet's score under its label.
pub open spec fn facets_members(facets: Map<Seq<char>, u8>) -> Members {
    facets.map_values(|score: u8| score_json(score))
}

/// The object that a domain's name stands for in a report: the overall score
/// and the facet scores.
pub open spec fn body_json(domain: DomainView) -> JsonView {
    JsonView::Object(
        Members::empty().insert(
            OVERALL_SCORE_KEY@,
            score_json(domain.overall_score),
        ).insert(FACETS_KEY@, JsonView::Object(facets_members(domain.facets))),
    )
}

/// The object of a single domain: its body under its name.
pub open spec fn domain_json(domain: DomainView) -> JsonView {
    JsonView::Object(Members::empty().insert(domain.name, body_json(domain)))
}

/// The members of an object after each domain was entered under its name, in
/// order. A name that is already a key takes the later body.
pub open spec fn with_domains(members: Members, domains: Seq<DomainView>) -> Members
    decreases domains.len(),
{
    if domains.len() == 0 {
        members
    } else {
        with_domains(members, domains.drop_last()).insert(
            domains.last().name,
            body_json(domains.last()),
        )
    }
}

/// The object of a report: the subject's name under `NAME`, then the domains.
pub open spec fn results_json(results: ResultsView) -> JsonView {
    JsonView::Object(
        with_domains(
            Members::empty().insert(NAME_KEY@, JsonView::Text(results.name)),
            results.results,
        ),
    )
}

/// The object of a domain has two members: the overall score, as a number,
/// and the facets, as an object.
pub proof fn lemma_body_members(domain: DomainView)
    ensures
        body_json(domain) is Object,
        body_json(domain)->Object_0.dom() =~= set![OVERALL_SCORE_KEY@, FACETS_KEY@],
        OVERALL_SCORE_KEY@ != FACETS_KEY@,
        body_json(domain)->Object_0[OVERALL_SCORE_KEY@] == JsonView::Number(
            domain.overall_score as int,
        ),
        body_json(domain)->Object_0[FACETS_KEY@] == JsonView::Object(
            facets_members(domain.facets),
        ),
{
    reveal_strlit("Overall Score");
    reveal_strlit("Facets");
    assert(OVERALL_SCORE_KEY@.len() != FACETS_KEY@.len());
}

/// The facets object has one member for each facet: its score, as a number,
/// under its label.
pub proof fn lemma_facets_members(facets: Map<Seq<char>, u8>)
    ensures
        facets_members(facets).dom() == facets.dom(),
        forall|label: Seq<char>| #[trigger]
            facets.contains_key(label) ==> facets_members(facets)[label] == JsonView::Number(
                facets[label] as int,
            ),
{
}

/// Whether one of the domains has the name.
pub open spec fn has_domain(domains: Seq<DomainView>, name: Seq<char>) -> bool {
    exists|i: int| 0 <= i < domains.len() && (#[trigger] domains[i]).name == name
}

/// Whether no later domain has the name of the domain at `i`.
pub open spec fn is_last_of_its_name(domains: Seq<DomainView>, i: int) -> bool {
    forall|j: int| i < j < domains.len() ==> (#[trigger] domains[j]).name != domains[i].name
}

/// The keys of the object after the domains were entered are the keys it had
/// and the names of the domains.
pub proof fn lemma_with_domains_keys(members: Members, domains: Seq<DomainView>)
    ensures
        forall|key: Seq<char>|
            #[trigger] with_domains(members, domains).contains_key(key) <==> members.contains_key(
                key,
            ) || has_domain(domains, key),
    decreases domains.len(),
{
    if domains.len() > 0 {
        let front = domains.drop_last();
        let last = domains.len() - 1;
        lemma_with_domains_keys(members, front);
        assert forall|key: Seq<char>| #[trigger]
            with_domains(members, domains).contains_key(key) implies members.contains_key(key)
            || has_domain(domains, key) by {
            if key == domains[last].name {
                assert(domains[last].name == key);
            } else if !members.contains_key(key) {
                assert(with_domains(members, front).contains_key(key));
                let i = choose|i: int| 0 <= i < front.len() && (#[trigger] front[i]).name == key;
                assert(domains[i].name == key);
            }
        }
        assert forall|key: Seq<char>|
            members.contains_key(key) || has_domain(domains, key) implies #[trigger] with_domains(
            members,
            domains,
        ).contains_key(key) by {
            if members.contains_key(key) {
                assert(with_domains(members, front).contains_key(key));
            } else {
                let i = choose|i: int|
                    0 <= i < domains.len() && (#[trigger] domains[i]).name == key;
                if i < last {
                    assert(front[i].name == key);
                    assert(with_domains(members, front).contains_key(key));
                }
            }
        }
    }
}

/// A key that is not the name of a domain keeps what it stood for.
pub proof fn lemma_with_domains_keeps(members: Members, domains: Seq<DomainView>, key: Seq<char>)
    requires
        members.contains_key(key),
        !has_domain(domains, key),
    ensures
        with_domains(members, domains).contains_key(key),
        with_domains(members, domains)[key] == members[key],
    decreases domains.len(),
{
    if domains.len() > 0 {
        let front = domains.drop_last();
        if has_domain(front, key) {
            let i = choose|i: int| 0 <= i < front.len() && (#[trigger] front[i]).name == key;
            assert(domains[i].name == key);
        }
        lemma_with_domains_keeps(members, front, key);
        assert(domains[domains.len() - 1].name != key);
    }
}

/// The name of a domain stands for the object of the last domain of that name.
pub proof fn lemma_with_domains_member(members: Members, domains: Seq<DomainView>, i: int)
    requires
        0 <= i < domains.len(),
        is_last_of_its_name(domains, i),
    ensures
        with_domains(members, domains).contains_key(domains[i].name),
        with_domains(members, domains)[domains[i].name] == body_json(domains[i]),
    decreases domains.len(),
{
    if i < domains.len() - 1 {
        let front = domains.drop_last();
        assert forall|j: int| i < j < front.len() implies (#[trigger] front[j]).name
            != front[i].name by {
            assert(front[j] == domains[j]);
        }
        lemma_with_domains_member(members, front, i);
        assert(domains[domains.len() - 1].name != domains[i].name);
    }
}

/// The keys of the object of a report are `NAME` and the names of the domains.
pub proof fn lemma_results_keys(results: ResultsView)
    ensures
        results_json(results) is Object,
        forall|key: Seq<char>|
            #[trigger] results_json(results)->Object_0.contains_key(key) <==> key == NAME_KEY@
                || has_domain(results.results, key),
{
    let named = Members::empty().insert(NAME_KEY@, JsonView::Text(results.name));
    lemma_with_domains_keys(named, results.results);
}

/// Under `NAME` stands the subject's name, unless a domain is called `NAME`.
pub proof fn lemma_results_name(results: ResultsView)
    requires
        !has_domain(results.results, NAME_KEY@),
    ensures
        results_json(results)->Object_0[NAME_KEY@] == JsonView::Text(results.name),
{
    let named = Members::empty().insert(NAME_KEY@, JsonView::Text(results.name));
    lemma_with_domains_keeps(named, results.results, NAME_KEY@);
}

/// Under the name of a domain stands the object of the last domain of that
/// name.
pub proof fn lemma_results_domain(results: ResultsView, i: int)
    requires
        0 <= i < results.results.len(),
        is_last_of_its_name(results.results, i),
    ensures
        results_json(results)->Object_0[results.results[i].name] == body_json(results.results[i]),
{
    let named = Members::empty().insert(NAME_KEY@, JsonView::Text(results.name));
    lemma_with_domains_member(named, results.results, i);
}

/// The overall score that was read from a header is the number that the
/// domain's object holds for it.
pub proof fn lemma_overall_score_round_trip(name: Seq<char>, score: u8, fields: Seq<Field>)
    requires
        entries_of(fields) is Ok,
    ensures
        assembled(Ok((name, score)), fields) is Ok,
        assembled(Ok((name, score)), fields)->Ok_0.name == name,
        assembled(Ok((name, score)), fields)->Ok_0.overall_score == score,
        body_json(assembled(Ok((name, score)), fields)->Ok_0)->Object_0[OVERALL_SCORE_KEY@]
            == JsonView::Number(score as int),
{
    lemma_body_members(assembled(Ok((name, score)), fields)->Ok_0);
}

/// The score that was read from a facet line is the number that the facets
/// object holds under the line's label, if no later line has that label.
pub proof fn lemma_facet_score_round_trip(
    header: Field,
    fields: Seq<Field>,
    i: int,
    label: Seq<char>,
    score: u8,
)
    requires
        assembled(header, fields) is Ok,
        0 <= i < fields.len(),
        fields[i] == Ok::<_, ErrorView>((label, score)),
        forall|j: int| i < j < fields.len() ==> (#[trigger] fields[j])->Ok_0.0 != label,
    ensures
        assembled(header, fields)->Ok_0.facets.contains_key(label),
        assembled(header, fields)->Ok_0.facets[label] == score,
        facets_members(assembled(header, fields)->Ok_0.facets)[label] == JsonView::Number(
            score as int,
        ),
{
    lemma_last_line_of_label_wins(header, fields, i);
}

/// Values that have a projection onto a JSON value.
pub trait BigFiveResultsTextToHash {
    /// What the JSON value of `self` says.
    spec fn json(&self) -> JsonView;

    /// The JSON value of `self`.
    fn to_h(&self) -> (hash: Result<serde_json::Value, serde_json::Error>)
        ensures
            hash matches Ok(value) ==> json_of(value) == self.json(),
    ;
}

/// The object of the facet scores.
fn facets_object(result: &BigFiveResult<'_>) -> (object: JsonObject)
    ensures
        members_of(object) == facets_members(result@.facets),
{
    let entries = result.facets().entries();
    let ghost all = entries.deep_view();
    let mut object = empty_object();
    assert(all.take(0) == Seq::<(Seq<char>, u8)>::empty());
    assert(members_of(object) == facets_members(as_map(all.take(0))));
    for i in 0..entries.len()
        invariant
            all == entries.deep_view(),
            members_of(object) == facets_members(as_map(all.take(i as int))),
    {
        let (label, score) = entries[i];
        set_member(&mut object, label, number_value(score));
        proof {
            assert(all.take(i + 1).drop_last() == all.take(i as int));
            assert(all.take(i + 1).last() == (label@, score));
            assert(members_of(object) == facets_members(as_map(all.take(i + 1))));
        }
    }
    assert(all.take(entries.len() as int) == all);
    object
}

/// The object that the domain's name stands for in a report.
fn body_value(result: &BigFiveResult<'_>) -> (value: serde_json::Value)
    ensures
        json_of(value) == body_json(result@),
{
    let mut body = empty_object();
    set_member(&mut body, OVERALL_SCORE_KEY, number_value(result.overall_score()));
    set_member(&mut body, FACETS_KEY, object_value(facets_object(result)));
    object_value(body)
}

impl<'a> BigFiveResultsTextToHash for BigFiveResult<'a> {
    open spec fn json(&self) -> JsonView {
        domain_json(self@)
    }

    /// The object of the domain. It is always there.
    fn to_h(&self) -> (hash: Result<serde_json::Value, serde_json::Error>)
        ensures
            hash is Ok,
    {
        let mut root = empty_object();
        set_member(&mut root, self.name(), body_value(self));
        Ok(object_value(root))
    }
}

impl<'a> BigFiveResultsTextToHash for BigFiveResults<'a> {
    open spec fn json(&self) -> JsonView {
        results_json(self@)
    }

    /// The object of the report. It is always there.
    fn to_h(&self) -> (hash: Result<serde_json::Value, serde_json::Error>)
        ensures
            hash is Ok,
    {
        let results = self.results();
        let ghost all = domain_views(results@);
        let mut root = empty_object();
        set_member(&mut root, NAME_KEY, text_value(self.name()));
        let ghost named = members_of(root);
        assert(all.take(0) == Seq::<DomainView>::empty());
        for i in 0..results.len()
            invariant
                all == domain_views(results@),
                members_of(root) == with_domains(named, all.take(i as int)),
        {
            let result = &results[i];
            set_member(&mut root, result.name(), body_value(result));
            proof {
                assert(all.take(i + 1).drop_last() == all.take(i as int));
                assert(all.take(i + 1).last() == result@);
            }
        }
        assert(all.take(results.len() as int) == all);
        Ok(object_value(root))
    }
}

} // verus!
