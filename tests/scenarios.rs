use quickrest::amos::{InvokeResult, Operation, OperationInfo, OperationMetaData, Parameter, ParameterMetaData, ParameterOwnership, ResultMetaData, Schema};
use quickrest::coverage::{exploration_coverage, invocation_coverage};
use quickrest::explore::{exploration_result, run_outcome, Behaviour, CheckOutcome, ExplorationResult};
use quickrest::generation::{GeneratedOperation, ParameterValue};
use quickrest::http::{HTTPConfiguration, HTTPMethod, HTTPParameterTarget, HTTPResult, HTTPStatus, Protocol};
use quickrest::properties::check_state_identity_with_observation;
use quickrest::synthesize::synthesize_operations_for_response_equality;
use quickrest::translation::{translate_generated_operation_to_http_call, translate_http_result};

fn get_persons() -> Operation {
    Operation {
        info: OperationInfo { name: "get_persons".to_string(), key: "operation/get_persons".to_string() },
        parameters: vec![],
        responses: vec![],
        meta_data: Some(OperationMetaData::HTTP { url: "/persons".to_string(), method: HTTPMethod::GET }),
    }
}

/// Invokes the calls against a transport that answers with `answers` in turn.
fn invoke_with(ops: &Vec<Operation>, gen_ops: &[GeneratedOperation], answers: &[(HTTPStatus, &str)]) -> Option<Vec<InvokeResult>> {
    let config = HTTPConfiguration::new("foo".to_string(), 123, Protocol::HTTP);
    let mut results = vec![];
    for (i, g) in gen_ops.iter().enumerate() {
        let (_call, url) = translate_generated_operation_to_http_call(&config, ops, g, &results).unwrap()?;
        let (status, payload) = answers[i.min(answers.len() - 1)];
        let answer = HTTPResult { status, payload: payload.to_string(), success: status == HTTPStatus::OK };
        results.push(translate_http_result(answer, g, url));
    }
    Some(results)
}

#[test]
fn fixed_payload_witnesses_response_equality_only() {
    let ops = vec![get_persons()];
    let draw = vec![(get_persons(), vec![])];
    let calls = synthesize_operations_for_response_equality(0, &draw);
    assert_eq!(calls.len(), 2);
    let results = invoke_with(&ops, &calls, &[(HTTPStatus::OK, "[\"Fake result\"]")]);
    assert_eq!(results.as_ref().unwrap()[0].meta_data, Some(ResultMetaData::HTTP { url: "http://foo:123/persons".to_string(), status: HTTPStatus::OK }));
    let q = "get_persons".to_string();
    assert_eq!(run_outcome(Behaviour::ResponseEquality, &q, results.clone()), CheckOutcome::Fails);
    assert_eq!(run_outcome(Behaviour::ResponseInequality, &q, results), CheckOutcome::Holds);
    let found = exploration_result(Behaviour::ResponseEquality, q.clone(), Some(calls.clone()));
    assert_eq!(found, ExplorationResult::ResponseEquality { operation: q.clone(), minimal_sequence: Some(calls) });
    assert_eq!(exploration_result(Behaviour::ResponseInequality, q.clone(), None), ExplorationResult::NoExampleFound { operation: q });
}

#[test]
fn server_error_on_first_call_is_a_response_check_witness() {
    let ops = vec![get_persons()];
    let calls = vec![GeneratedOperation { name: "get_persons".to_string(), parameters: vec![] }];
    let first = invoke_with(&ops, &calls, &[(HTTPStatus::InternalServerError, "oops")]);
    let q = "get_persons".to_string();
    assert_eq!(run_outcome(Behaviour::Property, &q, first), CheckOutcome::Fails);
    let later = invoke_with(&ops, &calls, &[(HTTPStatus::OK, "[]")]);
    assert_eq!(run_outcome(Behaviour::Property, &q, later), CheckOutcome::Holds);
}

#[test]
fn state_identity_with_a_change_in_between() {
    let r = |p: &str| InvokeResult::new(GeneratedOperation { name: "q".to_string(), parameters: vec![] }, p.to_string(), true, None);
    // first equals last, the middle differs: the mutation check decides, and fails
    assert!(!check_state_identity_with_observation(&[r("X"), r("Y"), r("X")]));
    assert!(check_state_identity_with_observation(&[r("X"), r("Y"), r("Z")]));
}

#[test]
fn abandoned_path_aborts_the_sequence() {
    let op = Operation {
        info: OperationInfo { name: "post_user".to_string(), key: "operation/post_user".to_string() },
        parameters: vec![Parameter {
            name: "uid".to_string(),
            schema: Schema::StringNonEmpty,
            required: true,
            ownership: ParameterOwnership::Owned,
            meta_data: Some(ParameterMetaData::HTTP { target: HTTPParameterTarget::Path }),
        }],
        responses: vec![],
        meta_data: Some(OperationMetaData::HTTP { url: "/users/{uid}".to_string(), method: HTTPMethod::POST }),
    };
    let ops = vec![op];
    let calls = vec![GeneratedOperation {
        name: "post_user".to_string(),
        parameters: vec![quickrest::generation::GeneratedParameter {
            name: "uid".to_string(),
            value: ParameterValue::StringValue { value: "".to_string(), seed: 1, active: true },
            ref_path: None,
        }],
    }];
    let results = invoke_with(&ops, &calls, &[(HTTPStatus::OK, "[]")]);
    assert_eq!(results, None);
    assert_eq!(run_outcome(Behaviour::Property, &"post_user".to_string(), results), CheckOutcome::Aborted);
}

#[test]
fn invocation_coverage_sorts_and_deduplicates() {
    let r = |n: &str| InvokeResult::new(GeneratedOperation { name: n.to_string(), parameters: vec![] }, String::new(), true, None);
    let c = invocation_coverage(&[r("post"), r("get"), r("post"), r("Delete")]);
    assert_eq!(c.covered, vec!["Delete", "get", "post"]);
    assert!(invocation_coverage(&[]).covered.is_empty());
}

#[test]
fn exploration_coverage_splits_operations() {
    let mk = |n: &str| Operation {
        info: OperationInfo { name: n.to_string(), key: format!("operation/{n}") },
        parameters: vec![],
        responses: vec![],
        meta_data: None,
    };
    let ops = vec![mk("c"), mk("a"), mk("b"), mk("d")];
    let g = |n: &str| GeneratedOperation { name: n.to_string(), parameters: vec![] };
    let results = vec![
        ExplorationResult::NoExampleFound { operation: "d".to_string() },
        ExplorationResult::StateMutation { query_operation: "c".to_string(), minimal_sequence: Some(vec![g("c"), g("a"), g("c")]) },
        ExplorationResult::ResponseCheck { operation: "zz".to_string(), minimal_sequence: None },
    ];
    let cov = exploration_coverage(&results, &ops);
    assert_eq!(cov.covered, vec!["a", "c", "zz"]);
    assert_eq!(cov.uncovered, vec!["b", "d"]);
}
