//! Collecting per-target outcomes into one ordered report.
//!
//! Outcomes arrive in completion order, which nothing guarantees; the
//! aggregator restores the original target order and computes the summary
//! counts. It is pure and deterministic.

use vstd::prelude::*;
use vstd::seq_lib::group_to_multiset_ensures;

use crate::command::CommandSpec;
use crate::outcome::ExecutionOutcome;

verus! {

/// Ordered collection of all outcomes of a run, plus summary counts. Built
/// once, read-only thereafter.
#[derive(Debug, PartialEq, Eq)]
pub struct AggregateReport {
    /// One outcome per target, in the order of the input target list.
    pub outcomes: Vec<ExecutionOutcome>,
    pub success_count: usize,
    pub failure_count: usize,
}

/// Number of successful outcomes in `s`.
pub open spec fn count_successes(s: Seq<ExecutionOutcome>) -> nat
    decreases s.len(),
{
    if s.len() == 0 {
        0
    } else {
        count_successes(s.drop_last()) + if s.last().is_success() {
            1nat
        } else {
            0nat
        }
    }
}

pub proof fn lemma_count_successes_le_len(s: Seq<ExecutionOutcome>)
    ensures
        count_successes(s) <= s.len(),
    decreases s.len(),
{
    if s.len() > 0 {
        lemma_count_successes_le_len(s.drop_last());
    }
}

/// The first outcome in `s` recorded for the target `id`, if any.
pub open spec fn find_outcome(s: Seq<ExecutionOutcome>, id: Seq<char>) -> Option<ExecutionOutcome>
    decreases s.len(),
{
    if s.len() == 0 {
        None
    } else if s.first().target_id@ == id {
        Some(s.first())
    } else {
        find_outcome(s.drop_first(), id)
    }
}

/// No two outcomes of `s` belong to the same target.
pub open spec fn distinct_target_ids(s: Seq<ExecutionOutcome>) -> bool {
    forall|i: int, j: int| 0 <= i < j < s.len() ==> s[i].target_id@ != s[j].target_id@
}

impl AggregateReport {
    /// The counts always partition the outcomes: successes are counted by
    /// the success rule and everything else is a failure.
    pub open spec fn wf(&self) -> bool {
        &&& self.success_count == count_successes(self.outcomes@)
        &&& self.success_count + self.failure_count == self.outcomes@.len()
    }
}

/// Finds the first outcome recorded for `id`, by index.
fn find_outcome_index(outcomes: &Vec<ExecutionOutcome>, id: &String) -> (r: Option<usize>)
    ensures
        r matches Some(j) ==> j < outcomes@.len() && outcomes@[j as int].target_id@ == id@
            && find_outcome(outcomes@, id@) == Some(outcomes@[j as int]),
        r is None ==> find_outcome(outcomes@, id@) is None,
{
    let mut j: usize = 0;
    assert(outcomes@.skip(0) =~= outcomes@);
    while j < outcomes.len()
        invariant
            0 <= j <= outcomes@.len(),
            find_outcome(outcomes@, id@) == find_outcome(outcomes@.skip(j as int), id@),
        decreases outcomes@.len() - j,
    {
        assert(outcomes@.skip(j as int).first() == outcomes@[j as int]);
        if outcomes[j].target_id.eq(id) {
            return Some(j);
        }
        assert(outcomes@.skip(j as int).drop_first() =~= outcomes@.skip(j as int + 1));
        j = j + 1;
    }
    assert(outcomes@.skip(outcomes@.len() as int).len() == 0);
    None
}

/// Reorders the outcomes of one run to the original target order given by
/// `specs` and computes the summary counts. Returns `None` exactly when the
/// outcomes are not one-per-spec: some spec's target has no outcome, or
/// there are more outcomes than specs.
pub fn aggregate_outcomes(specs: &Vec<CommandSpec>, outcomes: Vec<ExecutionOutcome>) -> (r: Option<
    AggregateReport,
>)
    ensures
        r is Some <==> outcomes@.len() == specs@.len() && (forall|i: int|
            0 <= i < specs@.len() ==> find_outcome(
                outcomes@,
                #[trigger] specs@[i].target_id@,
            ) is Some),
        r matches Some(rep) ==> {
            &&& rep.wf()
            &&& rep.outcomes@.len() == specs@.len()
            &&& forall|i: int|
                0 <= i < specs@.len() ==> Some(#[trigger] rep.outcomes@[i]) == find_outcome(
                    outcomes@,
                    specs@[i].target_id@,
                )
            &&& forall|i: int|
                0 <= i < specs@.len() ==> (#[trigger] rep.outcomes@[i]).target_id@
                    == specs@[i].target_id@
        },
{
    if outcomes.len() != specs.len() {
        return None;
    }
    let mut ordered: Vec<ExecutionOutcome> = Vec::new();
    let mut successes: usize = 0;
    let mut i: usize = 0;
    while i < specs.len()
        invariant
            0 <= i <= specs@.len(),
            outcomes@.len() == specs@.len(),
            ordered@.len() == i,
            successes <= i,
            successes == count_successes(ordered@),
            forall|k: int|
                0 <= k < i ==> Some(#[trigger] ordered@[k]) == find_outcome(
                    outcomes@,
                    specs@[k].target_id@,
                ),
            forall|k: int|
                0 <= k < i ==> (#[trigger] ordered@[k]).target_id@ == specs@[k].target_id@,
        decreases specs@.len() - i,
    {
        match find_outcome_index(&outcomes, &specs[i].target_id) {
            Some(j) => {
                let picked = outcomes[j].duplicate();
                if picked.check_success() {
                    successes = successes + 1;
                }
                assert(ordered@.push(picked).drop_last() =~= ordered@);
                ordered.push(picked);
            },
            None => {
                return None;
            },
        }
        i = i + 1;
    }
    proof {
        lemma_count_successes_le_len(ordered@);
        assert forall|k: int| 0 <= k < specs@.len() implies find_outcome(
            outcomes@,
            #[trigger] specs@[k].target_id@,
        ) is Some by {
            assert(Some(ordered@[k]) == find_outcome(outcomes@, specs@[k].target_id@));
        }
    }
    let failures: usize = specs.len() - successes;
    Some(AggregateReport { outcomes: ordered, success_count: successes, failure_count: failures })
}

proof fn lemma_find_outcome_some_contains(s: Seq<ExecutionOutcome>, id: Seq<char>)
    ensures
        find_outcome(s, id) matches Some(o) ==> s.contains(o) && o.target_id@ == id,
    decreases s.len(),
{
    if s.len() > 0 && s.first().target_id@ != id {
        lemma_find_outcome_some_contains(s.drop_first(), id);
        if find_outcome(s.drop_first(), id) is Some {
            let o = find_outcome(s.drop_first(), id)->0;
            let k = choose|k: int|
                0 <= k < s.drop_first().len() && s.drop_first()[k] == o;
            assert(s[k + 1] == o);
        }
    }
}

proof fn lemma_contains_find_outcome_some(s: Seq<ExecutionOutcome>, o: ExecutionOutcome)
    requires
        s.contains(o),
    ensures
        find_outcome(s, o.target_id@) is Some,
    decreases s.len(),
{
    if s.first().target_id@ != o.target_id@ {
        let k = choose|k: int| 0 <= k < s.len() && s[k] == o;
        assert(s.drop_first()[k - 1] == o);
        lemma_contains_find_outcome_some(s.drop_first(), o);
    }
}

/// Whatever order the outcomes of one run complete in, the aggregator sees
/// the same outcome for every target: looking a target up in two sequences
/// holding the same outcomes, each one-per-target, gives the same answer.
pub proof fn lemma_find_outcome_ignores_completion_order(
    outs1: Seq<ExecutionOutcome>,
    outs2: Seq<ExecutionOutcome>,
    id: Seq<char>,
)
    requires
        outs1.to_multiset() == outs2.to_multiset(),
        distinct_target_ids(outs1),
        distinct_target_ids(outs2),
    ensures
        find_outcome(outs1, id) == find_outcome(outs2, id),
    decreases outs1.len(),
{
    broadcast use group_to_multiset_ensures;

    lemma_find_outcome_some_contains(outs1, id);
    lemma_find_outcome_some_contains(outs2, id);
    if find_outcome(outs1, id) is Some {
        let o = find_outcome(outs1, id)->0;
        assert(outs1.to_multiset().count(o) > 0);
        assert(outs2.to_multiset().count(o) > 0);
        assert(outs2.contains(o));
        lemma_contains_find_outcome_some(outs2, o);
        let o2 = find_outcome(outs2, id)->0;
        assert(outs2.contains(o2));
        let k = choose|k: int| 0 <= k < outs2.len() && outs2[k] == o;
        let k2 = choose|k2: int| 0 <= k2 < outs2.len() && outs2[k2] == o2;
        assert(o == o2) by {
            if k != k2 {
                assert(outs2[k].target_id@ == outs2[k2].target_id@);
            }
        }
    } else {
        if find_outcome(outs2, id) is Some {
            let o2 = find_outcome(outs2, id)->0;
            assert(outs2.to_multiset().count(o2) > 0);
            assert(outs1.to_multiset().count(o2) > 0);
            assert(outs1.contains(o2));
            lemma_contains_find_outcome_some(outs1, o2);
        }
    }
}

/// Aggregating the outcomes of one run gives the same report whatever order
/// the targets completed in: any two completion orders of the same outcomes,
/// one outcome per target in each, agree on every target's outcome.
pub proof fn lemma_aggregation_ignores_completion_order(
    outs1: Seq<ExecutionOutcome>,
    outs2: Seq<ExecutionOutcome>,
)
    requires
        outs1.to_multiset() == outs2.to_multiset(),
        distinct_target_ids(outs1),
        distinct_target_ids(outs2),
    ensures
        forall|id: Seq<char>| find_outcome(outs1, id) == find_outcome(outs2, id),
{
    assert forall|id: Seq<char>| find_outcome(outs1, id) == find_outcome(outs2, id) by {
        lemma_find_outcome_ignores_completion_order(outs1, outs2, id);
    }
}

/// The summary counts of a report partition its outcomes: successes and
/// failures always add up to the number of targets, and the successes are
/// exactly the outcomes that completed with exit code 0.
pub proof fn lemma_counts_partition(rep: AggregateReport)
    requires
        rep.wf(),
    ensures
        rep.success_count + rep.failure_count == rep.outcomes@.len(),
        rep.success_count == count_successes(rep.outcomes@),
{
}

} // verus!
