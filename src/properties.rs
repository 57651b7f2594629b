//! The meta-properties: predicates over the results of one invoked sequence.
//! A predicate that fails marks the sequence as a witness of its behaviour.
use vstd::prelude::*;
use crate::amos::{InvokeResult, InvokeResultV, ResultMetaData};
use crate::http::HTTPStatus;

verus! {

pub open spec fn results_view(rs: Seq<InvokeResult>) -> Seq<InvokeResultV> {
    rs.map_values(|r: InvokeResult| r@)
}

/// Every result equals the first.
pub open spec fn all_equal_first(rs: Seq<InvokeResultV>) -> bool {
    forall|i: int| 0 <= i < rs.len() ==> #[trigger] rs[i] == rs[0]
}

/// Whether a result reports HTTP status 500.
pub open spec fn is_server_error(r: InvokeResultV) -> bool {
    match r.meta_data {
        Some((_, status)) => status == HTTPStatus::InternalServerError,
        None => false,
    }
}

pub open spec fn response_equality_spec(rs: Seq<InvokeResultV>) -> bool {
    !all_equal_first(rs)
}

pub open spec fn state_identity_spec(rs: Seq<InvokeResultV>) -> bool {
    if rs.len() > 1 && rs[0] == rs[rs.len() - 1] {
        all_equal_first(rs)
    } else {
        true
    }
}

fn all_equal_to_first(rs: &[InvokeResult]) -> (r: bool)
    ensures
        r == all_equal_first(results_view(rs@)),
{
    let n = rs.len();
    let mut i: usize = 0;
    while i < n
        invariant
            n == rs@.len(),
            i <= n,
            forall|k: int| 0 <= k < i ==> (#[trigger] rs@[k])@ == rs@[0]@,
        decreases n - i,
    {
        if !rs[i].same_as(&rs[0]) {
            proof {
                assert(results_view(rs@)[i as int] != results_view(rs@)[0]);
            }
            return false;
        }
        i = i + 1;
    }
    proof {
        assert forall|k: int| 0 <= k < results_view(rs@).len() implies #[trigger] results_view(rs@)[k] == results_view(rs@)[0] by {
            assert(rs@[k]@ == rs@[0]@);
        }
    }
    true
}

/// True iff all results equal the first: the behaviour sought is equality broken.
pub fn check_response_inequality(invocation_result: &[InvokeResult]) -> (r: bool)
    ensures
        r == all_equal_first(results_view(invocation_result@)),
{
    all_equal_to_first(invocation_result)
}

/// The negation of `check_response_inequality`.
pub fn check_response_equality(invocation_result: &[InvokeResult]) -> (r: bool)
    ensures
        r == response_equality_spec(results_view(invocation_result@)),
{
    !check_response_inequality(invocation_result)
}

/// True iff all (filtered) results equal the first; any change is a witness.
pub fn check_state_mutation(invocation_result: &[InvokeResult]) -> (r: bool)
    ensures
        r == all_equal_first(results_view(invocation_result@)),
{
    all_equal_to_first(invocation_result)
}

/// When there are at least two results and the first equals the last, the
/// state-mutation check decides; otherwise true.
pub fn check_state_identity_with_observation(invocation_result: &[InvokeResult]) -> (r: bool)
    ensures
        r == state_identity_spec(results_view(invocation_result@)),
{
    let n = invocation_result.len();
    if n > 1 && invocation_result[0].same_as(&invocation_result[n - 1]) {
        check_state_mutation(invocation_result)
    } else {
        true
    }
}

/// True unless some result reports HTTP status 500.
pub fn check_response(invocation_result: &[InvokeResult]) -> (r: bool)
    ensures
        r == forall|i: int|
            0 <= i < invocation_result@.len() ==> !is_server_error(#[trigger] invocation_result@[i]@),
{
    let n = invocation_result.len();
    let mut i: usize = 0;
    while i < n
        invariant
            n == invocation_result@.len(),
            i <= n,
            forall|k: int| 0 <= k < i ==> !is_server_error(#[trigger] invocation_result@[k]@),
        decreases n - i,
    {
        if let Some(ResultMetaData::HTTP { status, .. }) = &invocation_result[i].meta_data {
            if *status == HTTPStatus::InternalServerError {
                proof {
                    assert(is_server_error(invocation_result@[i as int]@));
                }
                return false;
            }
        }
        i = i + 1;
    }
    true
}

/// For every list of results, the response-equality check is the Boolean
/// complement of the response-inequality check.
pub proof fn lemma_equality_complements_inequality(rs: Seq<InvokeResult>)
    ensures
        response_equality_spec(results_view(rs)) == !all_equal_first(results_view(rs)),
{
}

} // verus!
