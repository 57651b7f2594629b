//! The decisions of the property-check and shrink loop. The caller draws and
//! shrinks values and invokes the target; these functions decide what each
//! outcome means and what to do next.
use vstd::prelude::*;
use crate::amos::{InvokeResult, InvokeResultV, Operation, OperationMetaData};
use crate::generation::GeneratedOperation;
use crate::http::HTTPMethod;
use crate::properties::{
    all_equal_first, check_response, check_response_equality, check_response_inequality,
    check_state_identity_with_observation, check_state_mutation, is_server_error,
    response_equality_spec, results_view, state_identity_spec,
};
use crate::text::str_eq;

verus! {

/// The behaviours the engine hunts for.
#[derive(Debug, PartialEq, Eq, Clone, Copy, Structural)]
pub enum Behaviour {
    ResponseEquality,
    ResponseInequality,
    StateMutation,
    StateIdentity,
    Property,
}

impl Behaviour {
    /// A name for display.
    pub fn presentation(&self) -> (r: String)
        ensures
            r@ == presentation_text(*self),
    {
        proof {
            reveal_strlit("Response equality");
            reveal_strlit("Response inequality");
            reveal_strlit("State mutation");
            reveal_strlit("State identity");
            reveal_strlit("Response Check");
        }
        match self {
            Behaviour::ResponseEquality => "Response equality".to_string(),
            Behaviour::ResponseInequality => "Response inequality".to_string(),
            Behaviour::StateMutation => "State mutation".to_string(),
            Behaviour::StateIdentity => "State identity".to_string(),
            Behaviour::Property => "Response Check".to_string(),
        }
    }
}

pub open spec fn presentation_text(b: Behaviour) -> Seq<char> {
    match b {
        Behaviour::ResponseEquality => "Response equality"@,
        Behaviour::ResponseInequality => "Response inequality"@,
        Behaviour::StateMutation => "State mutation"@,
        Behaviour::StateIdentity => "State identity"@,
        Behaviour::Property => "Response Check"@,
    }
}

/// What one exploration of one operation found.
#[derive(Debug, PartialEq, Clone)]
pub enum ExplorationResult {
    NoExampleFound { operation: String },
    StateMutation { query_operation: String, minimal_sequence: Option<Vec<GeneratedOperation>> },
    StateIdentity { query_operation: String, minimal_sequence: Option<Vec<GeneratedOperation>> },
    ResponseEquality { operation: String, minimal_sequence: Option<Vec<GeneratedOperation>> },
    ResponseInEquality { operation: String, minimal_sequence: Option<Vec<GeneratedOperation>> },
    ResponseCheck { operation: String, minimal_sequence: Option<Vec<GeneratedOperation>> },
}

/// The result of a behaviour's exploration of `operation`: the behaviour's
/// variant with the witness, or `NoExampleFound` without one.
pub fn exploration_result(behaviour: Behaviour, operation: String, witness: Option<Vec<GeneratedOperation>>) -> (r: ExplorationResult)
    ensures
        witness is None ==> r == (ExplorationResult::NoExampleFound { operation }),
        witness is Some ==> r == match behaviour {
            Behaviour::ResponseEquality => ExplorationResult::ResponseEquality { operation, minimal_sequence: witness },
            Behaviour::ResponseInequality => ExplorationResult::ResponseInEquality { operation, minimal_sequence: witness },
            Behaviour::StateMutation => ExplorationResult::StateMutation { query_operation: operation, minimal_sequence: witness },
            Behaviour::StateIdentity => ExplorationResult::StateIdentity { query_operation: operation, minimal_sequence: witness },
            Behaviour::Property => ExplorationResult::ResponseCheck { operation, minimal_sequence: witness },
        },
{
    if witness.is_none() {
        return ExplorationResult::NoExampleFound { operation };
    }
    match behaviour {
        Behaviour::ResponseEquality => ExplorationResult::ResponseEquality { operation, minimal_sequence: witness },
        Behaviour::ResponseInequality => ExplorationResult::ResponseInEquality { operation, minimal_sequence: witness },
        Behaviour::StateMutation => ExplorationResult::StateMutation { query_operation: operation, minimal_sequence: witness },
        Behaviour::StateIdentity => ExplorationResult::StateIdentity { query_operation: operation, minimal_sequence: witness },
        Behaviour::Property => ExplorationResult::ResponseCheck { operation, minimal_sequence: witness },
    }
}

/// What a behaviour's predicate says of a list of (filtered) results.
pub open spec fn check_spec(b: Behaviour, rs: Seq<InvokeResultV>) -> bool {
    match b {
        Behaviour::ResponseEquality => response_equality_spec(rs),
        Behaviour::ResponseInequality => all_equal_first(rs),
        Behaviour::StateMutation => all_equal_first(rs),
        Behaviour::StateIdentity => state_identity_spec(rs),
        Behaviour::Property => forall|i: int| 0 <= i < rs.len() ==> !is_server_error(#[trigger] rs[i]),
    }
}

/// The predicate of a behaviour.
pub fn check_behaviour(b: Behaviour, results: &[InvokeResult]) -> (r: bool)
    ensures
        r == check_spec(b, results_view(results@)),
{
    match b {
        Behaviour::ResponseEquality => check_response_equality(results),
        Behaviour::ResponseInequality => check_response_inequality(results),
        Behaviour::StateMutation => check_state_mutation(results),
        Behaviour::StateIdentity => check_state_identity_with_observation(results),
        Behaviour::Property => {
            let r = check_response(results);
            proof {
                if r {
                    assert forall|i: int| 0 <= i < results_view(results@).len() implies !is_server_error(#[trigger] results_view(results@)[i]) by {
                        assert(results_view(results@)[i] == results@[i]@);
                    }
                } else {
                    let i = choose|i: int| 0 <= i < results@.len() && is_server_error(#[trigger] results@[i]@);
                    assert(results_view(results@)[i] == results@[i]@);
                }
            }
            r
        },
    }
}

/// Whether a behaviour looks at the query operation's invocations only.
pub open spec fn is_state_behaviour(b: Behaviour) -> bool {
    b is StateMutation || b is StateIdentity
}

/// The results a behaviour's predicate reads: for the state behaviours, the
/// invocations of the query operation; for the others, all of them.
pub open spec fn filter_spec(b: Behaviour, query: Seq<char>, rs: Seq<InvokeResult>) -> Seq<InvokeResultV>
    decreases rs.len(),
{
    if rs.len() == 0 {
        Seq::empty()
    } else {
        let prev = filter_spec(b, query, rs.drop_last());
        if !is_state_behaviour(b) || rs.last().operation.name@ == query {
            prev.push(rs.last()@)
        } else {
            prev
        }
    }
}

/// Keeps the results that the behaviour's predicate reads.
pub fn filter_results(b: Behaviour, query: &String, results: Vec<InvokeResult>) -> (r: Vec<InvokeResult>)
    ensures
        results_view(r@) == filter_spec(b, query@, results@),
{
    let mut out: Vec<InvokeResult> = Vec::new();
    let state = matches!(b, Behaviour::StateMutation) || matches!(b, Behaviour::StateIdentity);
    let ghost all = results@;
    let mut i: usize = 0;
    proof {
        assert(results_view(out@) =~= filter_spec(b, query@, all.subrange(0, 0)));
    }
    while i < results.len()
        invariant
            all == results@,
            state == is_state_behaviour(b),
            i <= all.len(),
            results_view(out@) == filter_spec(b, query@, all.subrange(0, i as int)),
        decreases all.len() - i,
    {
        let r = &results[i];
        proof {
            let t = all.subrange(0, i + 1);
            assert(t.drop_last() =~= all.subrange(0, i as int));
            assert(t.last() == *r);
        }
        let ghost prev = results_view(out@);
        if !state || str_eq(r.operation.name.as_str(), query.as_str()) {
            out.push(r.deep_copy());
            proof {
                assert(results_view(out@) =~= prev.push(r@));
            }
        }
        i = i + 1;
    }
    proof {
        assert(all.subrange(0, all.len() as int) =~= all);
    }
    out
}

/// How one run of a sequence ended.
#[derive(Debug, PartialEq, Eq, Clone, Copy, Structural)]
pub enum CheckOutcome {
    /// The sequence was abandoned (nothing to check).
    Aborted,
    /// The predicate held: no witness.
    Holds,
    /// The predicate failed: the sequence witnesses the behaviour.
    Fails,
}

pub open spec fn outcome_spec(b: Behaviour, query: Seq<char>, results: Option<Seq<InvokeResult>>) -> CheckOutcome {
    match results {
        None => CheckOutcome::Aborted,
        Some(rs) => if check_spec(b, filter_spec(b, query, rs)) {
            CheckOutcome::Holds
        } else {
            CheckOutcome::Fails
        },
    }
}

pub open spec fn option_results(o: Option<Vec<InvokeResult>>) -> Option<Seq<InvokeResult>> {
    match o {
        Some(v) => Some(v@),
        None => None,
    }
}

/// Filters the results of one run and applies the behaviour's predicate.
pub fn run_outcome(b: Behaviour, query: &String, results: Option<Vec<InvokeResult>>) -> (r: CheckOutcome)
    ensures
        r == outcome_spec(b, query@, option_results(results)),
{
    match results {
        None => CheckOutcome::Aborted,
        Some(rs) => {
            let kept = filter_results(b, query, rs);
            if check_behaviour(b, kept.as_slice()) {
                CheckOutcome::Holds
            } else {
                CheckOutcome::Fails
            }
        },
    }
}

/// What to do after a test run: only a failing predicate starts shrinking.
pub fn starts_shrinking(outcome: CheckOutcome) -> (r: bool)
    ensures
        r == (outcome == CheckOutcome::Fails),
{
    outcome == CheckOutcome::Fails
}

/// A move of the shrinker over the value tree.
#[derive(Debug, PartialEq, Eq, Clone, Copy, Structural)]
pub enum ShrinkMove {
    Simplify,
    Complicate,
}

/// The move after a shrink run: keep simplifying while the predicate still
/// fails; back up after a pass or an abandoned run.
pub fn shrink_move(outcome: CheckOutcome) -> (r: ShrinkMove)
    ensures
        r == (if outcome == CheckOutcome::Fails { ShrinkMove::Simplify } else { ShrinkMove::Complicate }),
{
    if outcome == CheckOutcome::Fails {
        ShrinkMove::Simplify
    } else {
        ShrinkMove::Complicate
    }
}

/// Whether shrinking goes on after the move: after an abandoned run always;
/// otherwise only if the value tree could move.
pub fn shrink_continues(outcome: CheckOutcome, moved: bool) -> (r: bool)
    ensures
        r == (outcome == CheckOutcome::Aborted || moved),
{
    outcome == CheckOutcome::Aborted || moved
}

/// The operations a pinned sequence draws from: for state mutation the
/// POST and PUT operations, for state identity the POST and DELETE ones,
/// and operations without HTTP metadata in both cases.
pub open spec fn state_accreting(b: Behaviour, op: Operation) -> bool {
    match op.meta_data {
        Some(OperationMetaData::HTTP { method, .. }) => if b is StateMutation {
            method == HTTPMethod::POST || method == HTTPMethod::PUT
        } else {
            method == HTTPMethod::POST || method == HTTPMethod::DELETE
        },
        None => true,
    }
}

pub open spec fn valid_operations_spec(b: Behaviour, ops: Seq<Operation>) -> Seq<crate::amos::OperationV>
    decreases ops.len(),
{
    if ops.len() == 0 {
        Seq::empty()
    } else {
        let prev = valid_operations_spec(b, ops.drop_last());
        if state_accreting(b, ops.last()) {
            prev.push(ops.last()@)
        } else {
            prev
        }
    }
}

/// The operations a state behaviour may place after its query operation.
pub fn valid_operations(b: Behaviour, ops: &Vec<Operation>) -> (r: Vec<Operation>)
    requires
        b is StateMutation || b is StateIdentity,
    ensures
        r@.map_values(|o: Operation| o@) == valid_operations_spec(b, ops@),
{
    let mut out: Vec<Operation> = Vec::new();
    let mut i: usize = 0;
    while i < ops.len()
        invariant
            i <= ops@.len(),
            out@.map_values(|o: Operation| o@) == valid_operations_spec(b, ops@.subrange(0, i as int)),
        decreases ops@.len() - i,
    {
        let op = &ops[i];
        proof {
            let t = ops@.subrange(0, i + 1);
            assert(t.drop_last() =~= ops@.subrange(0, i as int));
            assert(t.last() == *op);
        }
        let keep = match &op.meta_data {
            Some(OperationMetaData::HTTP { method, .. }) => {
                if matches!(b, Behaviour::StateMutation) {
                    *method == HTTPMethod::POST || *method == HTTPMethod::PUT
                } else {
                    *method == HTTPMethod::POST || *method == HTTPMethod::DELETE
                }
            },
            None => true,
        };
        if keep {
            let ghost prev = out@;
            out.push(op.deep_copy());
            proof {
                assert(out@.map_values(|o: Operation| o@) =~= prev.map_values(|o: Operation| o@).push(op@));
            }
        }
        i = i + 1;
    }
    proof {
        assert(ops@.subrange(0, ops@.len() as int) =~= ops@);
    }
    out
}

/// Two invocations that got results with equal views (a transport that
/// answers every call of one operation alike) witness response equality:
/// the equality predicate fails, so the explorer shrinks and reports them;
/// and they never witness response inequality: its predicate holds, so no
/// example is found.
pub proof fn lemma_identical_answers(query: Seq<char>, r1: InvokeResult, r2: InvokeResult)
    requires
        r1@ == r2@,
    ensures
        outcome_spec(Behaviour::ResponseEquality, query, Some(seq![r1, r2])) == CheckOutcome::Fails,
        outcome_spec(Behaviour::ResponseInequality, query, Some(seq![r1, r2])) == CheckOutcome::Holds,
{
    let rs = seq![r1, r2];
    assert(rs.drop_last() =~= seq![r1]);
    assert(seq![r1].drop_last() =~= Seq::<InvokeResult>::empty());
    assert(rs.last() == r2);
    assert(seq![r1].last() == r1);
    assert(filter_spec(Behaviour::ResponseEquality, query, Seq::<InvokeResult>::empty()).len() == 0);
    assert(filter_spec(Behaviour::ResponseEquality, query, seq![r1]) =~= seq![r1@]);
    assert(filter_spec(Behaviour::ResponseInequality, query, Seq::<InvokeResult>::empty()).len() == 0);
    assert(filter_spec(Behaviour::ResponseInequality, query, seq![r1]) =~= seq![r1@]);
    let f = filter_spec(Behaviour::ResponseEquality, query, rs);
    assert(f =~= seq![r1@, r2@]);
    let g = filter_spec(Behaviour::ResponseInequality, query, rs);
    assert(g =~= seq![r1@, r2@]);
    assert(all_equal_first(f));
    assert(all_equal_first(g));
}

/// For a draw of one operation whose values hold no reference, and a
/// transport that gives every call the same answer (`status`, `payload`,
/// `success`): the two calls of the response-equality sequence translate to
/// the same call whatever came before, so their results are equal; response
/// equality is witnessed and response inequality is not.
pub proof fn lemma_fixed_answer_single_operation(
    draw: Seq<crate::synthesize::GenerationOperationWithParameters>,
    config: crate::http::HTTPConfiguration,
    op: Operation,
    g1: GeneratedOperation,
    g2: GeneratedOperation,
    rs1: Seq<InvokeResultV>,
    rs2: Seq<InvokeResultV>,
    status: crate::http::HTTPStatus,
    payload: Seq<char>,
    success: bool,
    r1: InvokeResult,
    r2: InvokeResult,
    query: Seq<char>,
)
    requires
        draw.len() == 1,
        crate::synthesize::reference_free(draw[0].1@.map_values(|v: crate::generation::ParameterValue| v@)),
        g1@ == crate::synthesize::synthesize_item(draw, draw[0]),
        g2@ == crate::synthesize::synthesize_item(draw, draw[0]),
        crate::translation::translate_operation_spec(config, g1, op.meta_data, op, rs1) is Ok,
        crate::translation::translate_operation_spec(config, g1, op.meta_data, op, rs1)->Ok_0 is Some,
        r1@ == (InvokeResultV {
            operation: g1@,
            result: payload,
            success,
            meta_data: Some((crate::translation::translate_operation_spec(config, g1, op.meta_data, op, rs1)->Ok_0->Some_0.url, status)),
        }),
        r2@ == (InvokeResultV {
            operation: g2@,
            result: payload,
            success,
            meta_data: Some((crate::translation::translate_operation_spec(config, g2, op.meta_data, op, rs2)->Ok_0->Some_0.url, status)),
        }),
    ensures
        r1@ == r2@,
        outcome_spec(Behaviour::ResponseEquality, query, Some(seq![r1, r2])) == CheckOutcome::Fails,
        outcome_spec(Behaviour::ResponseInequality, query, Some(seq![r1, r2])) == CheckOutcome::Holds,
{
    crate::synthesize::lemma_synthesis_of_plain_values(draw, draw[0]);
    assert(crate::translation::no_response_reference(g1@.parameters));
    crate::translation::lemma_translation_ignores_results(config, op, g1, g2, rs1, rs2);
    lemma_identical_answers(query, r1, r2);
}

/// Settings of a state-mutation exploration.
#[derive(Debug)]
pub struct StateMutationSettings {
    pub number_of_tests: u16,
    pub min_length: u8,
    pub max_length: u8,
    pub query_operation_ids: Vec<usize>,
    pub selected_query_operation: Option<usize>,
}

impl StateMutationSettings {
    pub fn new() -> (r: Self)
        ensures
            r.number_of_tests == 100,
            r.min_length == 1,
            r.max_length == 2,
            r.query_operation_ids@.len() == 0,
            r.selected_query_operation is None,
    {
        Self {
            number_of_tests: 100,
            min_length: 1,
            max_length: 2,
            query_operation_ids: Vec::new(),
            selected_query_operation: None,
        }
    }

    /// Removes the selected query operation and selects the one before it.
    pub fn remove_selected_query_operation(&mut self)
        requires
            old(self).selected_query_operation matches Some(id) ==> id < old(self).query_operation_ids@.len(),
        ensures
            match old(self).selected_query_operation {
                Some(id) => final(self).query_operation_ids@ == old(self).query_operation_ids@.remove(id as int)
                    && final(self).selected_query_operation == (if id > 0 { Some((id - 1) as usize) } else { None }),
                None => final(self).query_operation_ids@ == old(self).query_operation_ids@
                    && final(self).selected_query_operation is None,
            },
            final(self).number_of_tests == old(self).number_of_tests,
            final(self).min_length == old(self).min_length,
            final(self).max_length == old(self).max_length,
    {
        if let Some(id) = self.selected_query_operation {
            self.query_operation_ids.remove(id);
            if id > 0 {
                self.selected_query_operation = Some(id - 1);
            } else {
                self.selected_query_operation = None;
            }
        }
    }
}

/// Settings of an exploration.
#[derive(Debug)]
pub struct ExplorationSettings {
    pub state_mutation: StateMutationSettings,
}

impl ExplorationSettings {
    pub fn new() -> (r: Self)
        ensures
            r.state_mutation.number_of_tests == 100,
            r.state_mutation.min_length == 1,
            r.state_mutation.max_length == 2,
            r.state_mutation.query_operation_ids@.len() == 0,
            r.state_mutation.selected_query_operation is None,
    {
        ExplorationSettings { state_mutation: StateMutationSettings::new() }
    }
}

} // verus!
