use quickrest::amos::{InvokeResult, Operation, OperationInfo, OperationMetaData, Parameter, ParameterMetaData, ParameterOwnership, Response, ResultMetaData, Schema};
use quickrest::explore::{
    exploration_result, filter_results, run_outcome, shrink_continues, shrink_move, starts_shrinking,
    valid_operations, Behaviour, CheckOutcome, ExplorationResult, ExplorationSettings, ShrinkMove,
    StateMutationSettings,
};
use quickrest::generation::{link_sequence_relations, GeneratedOperation, GeneratedParameter, ParameterValue};
use quickrest::http::{HTTPMethod, HTTPParameterTarget, HTTPStatus};
use quickrest::properties::{
    check_response, check_response_equality, check_response_inequality,
    check_state_identity_with_observation, check_state_mutation,
};
use quickrest::relations::{camel_split, related_parameters, word_contains, Relation, RelationInfo};
use quickrest::synthesize::{
    synthesize_operation, synthesize_operations, synthesize_operations_for_response_equality,
    synthesize_operations_for_state_identity, synthesize_operations_for_state_mutation,
};

fn op(name: &str, params: Vec<Parameter>, responses: Vec<Response>, meta: Option<OperationMetaData>) -> Operation {
    Operation {
        info: OperationInfo { name: name.to_string(), key: format!("operation/{}", name) },
        parameters: params,
        responses,
        meta_data: meta,
    }
}

fn param(name: &str, schema: Schema, required: bool, target: Option<HTTPParameterTarget>) -> Parameter {
    Parameter {
        name: name.to_string(),
        schema,
        required,
        ownership: ParameterOwnership::Owned,
        meta_data: target.map(|t| ParameterMetaData::HTTP { target: t }),
    }
}

fn text(value: &str, seed: i32, active: bool) -> ParameterValue {
    ParameterValue::StringValue { value: value.to_string(), seed, active }
}

fn get_persons() -> Operation {
    op(
        "get_persons",
        vec![param("name", Schema::String, true, None)],
        vec![Response { name: "successful operation".to_string(), schema: Schema::ArrayOfRefItems("person".to_string()) }],
        None,
    )
}

#[test]
fn camel_split_words() {
    assert_eq!(camel_split("getPersons"), vec!["get", "Persons"]);
    assert_eq!(camel_split("Name"), vec!["", "Name"]);
    assert_eq!(camel_split("name"), vec!["name"]);
    assert_eq!(camel_split(""), vec![""]);
}

#[test]
fn word_contains_ignores_case() {
    let a = vec!["person".to_string(), "Name".to_string(), "id".to_string()];
    let b = vec!["get".to_string(), "Person".to_string(), "name".to_string()];
    assert_eq!(word_contains(&a, &b), vec!["person", "Name"]);
    // whole words only: a word inside another does not count
    let c = vec!["get".to_string(), "Persons".to_string(), "nameless".to_string()];
    assert!(word_contains(&a, &c).is_empty());
}

#[test]
fn linking_refers_to_earlier_parameter() {
    let draw = vec![
        (get_persons(), vec![text("jieewpsmyqg", 5, true)]),
        (get_persons(), vec![text("nlmtcpckwygdgbgr", 8, true)]),
    ];
    let linked = link_sequence_relations(&draw);
    assert_eq!(linked[0].1, vec![text("jieewpsmyqg", 5, true)]);
    assert_eq!(
        linked[1].1,
        vec![ParameterValue::Reference {
            active: true,
            idx: [0, 0],
            fallback: Box::new(text("nlmtcpckwygdgbgr", 8, true)),
            relation: Relation::Parameter(RelationInfo {
                operation: "get_persons".to_string(),
                name: "name".to_string(),
                schema: Schema::String,
                strength: 1,
                op_idx: 0,
                idx: 0
            })
        }]
    );
}

#[test]
fn inactive_values_are_not_linked() {
    let draw = vec![
        (get_persons(), vec![text("a", 5, true)]),
        (get_persons(), vec![text("b", 8, false)]),
    ];
    let linked = link_sequence_relations(&draw);
    assert_eq!(linked[1].1, vec![text("b", 8, false)]);
}

#[test]
fn reference_to_a_listing_response() {
    let list = op(
        "getPerson",
        vec![],
        vec![Response { name: "ok".to_string(), schema: Schema::ArrayOfString }],
        None,
    );
    let delete = op("deletePerson", vec![param("personName", Schema::String, true, None)], vec![], None);
    let draw = vec![(list, vec![]), (delete.clone(), vec![text("zz", 3, true)])];
    let candidates = related_parameters(&draw[0..1], &delete.parameters[0]);
    assert_eq!(candidates.len(), 1);
    let linked = link_sequence_relations(&draw);
    match &linked[1].1[0] {
        ParameterValue::Reference { relation: Relation::Response(info), active, .. } => {
            assert_eq!(info.operation, "getPerson");
            assert_eq!(info.strength, 1);
            assert!(*active);
        }
        other => panic!("not a response reference: {:?}", other),
    }
}

#[test]
fn synthesis_drops_optional_non_path_values_with_high_seed() {
    let o = op(
        "post",
        vec![
            param("a", Schema::String, false, Some(HTTPParameterTarget::Query)),
            param("b", Schema::String, false, Some(HTTPParameterTarget::Path)),
            param("c", Schema::String, true, Some(HTTPParameterTarget::Query)),
            param("d", Schema::Unsupported, true, Some(HTTPParameterTarget::Query)),
        ],
        vec![],
        None,
    );
    let draw = vec![(o, vec![text("x", 9, true), text("y", 9, true), text("z", 9, true), ParameterValue::Empty])];
    let g = synthesize_operation(&draw, draw[0].clone());
    assert_eq!(g.name, "post");
    let names: Vec<String> = g.parameters.iter().map(|p| p.name.clone()).collect();
    assert_eq!(names, vec!["b", "c"]);
}

#[test]
fn inactive_reference_synthesizes_to_fallback() {
    let o = op("q", vec![param("name", Schema::String, true, None)], vec![], None);
    let reference = ParameterValue::Reference {
        active: false,
        idx: [0, 0],
        fallback: Box::new(text("fallback", 2, true)),
        relation: Relation::Parameter(RelationInfo {
            operation: "q".to_string(),
            name: "name".to_string(),
            schema: Schema::String,
            strength: 1,
            op_idx: 0,
            idx: 0,
        }),
    };
    let draw = vec![(o.clone(), vec![text("first", 2, true)]), (o, vec![reference])];
    let g = synthesize_operation(&draw, draw[1].clone());
    assert_eq!(
        g.parameters,
        vec![GeneratedParameter { name: "name".to_string(), value: text("fallback", 2, true), ref_path: None }]
    );
}

#[test]
fn reference_chains_resolve_to_their_origin() {
    let o = op("q", vec![param("name", Schema::String, true, None)], vec![], None);
    let link = |op_idx: usize| ParameterValue::Reference {
        active: true,
        idx: [op_idx, 0],
        fallback: Box::new(text("unused", 2, true)),
        relation: Relation::Parameter(RelationInfo {
            operation: "q".to_string(),
            name: "name".to_string(),
            schema: Schema::String,
            strength: 1,
            op_idx,
            idx: 0,
        }),
    };
    let draw = vec![(o.clone(), vec![text("origin", 2, true)]), (o.clone(), vec![link(0)]), (o, vec![link(1)])];
    let all = synthesize_operations(&draw);
    assert_eq!(all.len(), 3);
    assert_eq!(all[2].parameters[0].value, text("origin", 2, true));
    assert_eq!(all[2].parameters[0].ref_path, Some("REFERENCE - Active - q[0]/name".to_string()));
}

#[test]
fn behaviour_packaging() {
    let q = op("q", vec![], vec![], None);
    let a = op("a", vec![], vec![], None);
    let b = op("b", vec![], vec![], None);
    let draw = vec![(q, vec![]), (a, vec![]), (b, vec![])];
    let names = |v: Vec<GeneratedOperation>| v.iter().map(|g| g.name.clone()).collect::<Vec<_>>();
    assert_eq!(names(synthesize_operations_for_response_equality(0, &draw)), vec!["q", "q"]);
    assert_eq!(names(synthesize_operations_for_state_mutation(0, &draw)), vec!["q", "a", "b", "q"]);
    assert_eq!(names(synthesize_operations_for_state_identity(0, &draw)), vec!["q", "a", "q", "b", "q"]);
    assert_eq!(names(synthesize_operations_for_state_identity(1, &draw)), vec!["q", "a", "b", "a"]);
    assert!(synthesize_operations_for_state_identity(0, &[]).is_empty());
}

fn result(payload: &str, status: HTTPStatus) -> InvokeResult {
    InvokeResult::new(
        GeneratedOperation { name: "get_persons".to_string(), parameters: vec![] },
        payload.to_string(),
        true,
        Some(ResultMetaData::HTTP { url: "udddrl".to_string(), status }),
    )
}

#[test]
fn check_response_equality_pos() {
    let results = vec![result("[\"Fake result\"]", HTTPStatus::OK), result("[\"Fake result\"]", HTTPStatus::OK)];
    assert_eq!(check_response_equality(&results), false)
}

#[test]
fn check_response_equality_neg() {
    let results = vec![result("[\"Fake result\"]", HTTPStatus::OK), result("[\"Fake result0000000000000\"]", HTTPStatus::OK)];
    assert_eq!(check_response_equality(&results), true)
}

#[test]
fn equality_is_the_complement_of_inequality() {
    let same = vec![result("x", HTTPStatus::OK), result("x", HTTPStatus::OK)];
    let diff = vec![result("x", HTTPStatus::OK), result("y", HTTPStatus::OK)];
    for rs in [&same, &diff, &vec![]] {
        assert_eq!(check_response_equality(rs), !check_response_inequality(rs));
    }
}

#[test]
fn server_error_anywhere_fails_the_response_check() {
    assert!(check_response(&[result("a", HTTPStatus::OK), result("b", HTTPStatus::OK)]));
    assert!(!check_response(&[result("a", HTTPStatus::OK), result("b", HTTPStatus::InternalServerError)]));
    assert!(!check_response(&[result("a", HTTPStatus::InternalServerError)]));
}

#[test]
fn state_checks() {
    let x = result("X", HTTPStatus::OK);
    let y = result("Y", HTTPStatus::OK);
    assert!(check_state_mutation(&[x.clone(), x.clone()]));
    assert!(!check_state_mutation(&[x.clone(), y.clone()]));
    // first and last equal with a change in between: the mutation check decides
    assert!(!check_state_identity_with_observation(&[x.clone(), y.clone(), x.clone()]));
    assert!(check_state_identity_with_observation(&[x.clone(), y.clone()]));
    assert!(check_state_identity_with_observation(&[x.clone()]));
    assert!(check_state_identity_with_observation(&[x.clone(), x.clone(), x]));
}

#[test]
fn explorer_decisions() {
    let q = "get_persons".to_string();
    let same = vec![result("x", HTTPStatus::OK), result("x", HTTPStatus::OK)];
    assert_eq!(run_outcome(Behaviour::ResponseEquality, &q, Some(same.clone())), CheckOutcome::Fails);
    assert_eq!(run_outcome(Behaviour::ResponseInequality, &q, Some(same)), CheckOutcome::Holds);
    assert_eq!(run_outcome(Behaviour::Property, &q, None), CheckOutcome::Aborted);
    assert_eq!(run_outcome(Behaviour::Property, &q, Some(vec![result("x", HTTPStatus::InternalServerError)])), CheckOutcome::Fails);
    assert!(starts_shrinking(CheckOutcome::Fails));
    assert!(!starts_shrinking(CheckOutcome::Holds));
    assert!(!starts_shrinking(CheckOutcome::Aborted));
    assert_eq!(shrink_move(CheckOutcome::Fails), ShrinkMove::Simplify);
    assert_eq!(shrink_move(CheckOutcome::Holds), ShrinkMove::Complicate);
    assert_eq!(shrink_move(CheckOutcome::Aborted), ShrinkMove::Complicate);
    assert!(shrink_continues(CheckOutcome::Aborted, false));
    assert!(!shrink_continues(CheckOutcome::Fails, false));
    assert!(shrink_continues(CheckOutcome::Holds, true));
}

#[test]
fn state_filters_keep_query_invocations() {
    let other = InvokeResult::new(GeneratedOperation { name: "post_person".to_string(), parameters: vec![] }, "ok".to_string(), true, None);
    let rs = vec![result("A", HTTPStatus::OK), other, result("A,B", HTTPStatus::OK)];
    let kept = filter_results(Behaviour::StateMutation, &"get_persons".to_string(), rs.clone());
    assert_eq!(kept, vec![result("A", HTTPStatus::OK), result("A,B", HTTPStatus::OK)]);
    assert_eq!(filter_results(Behaviour::Property, &"get_persons".to_string(), rs.clone()).len(), 3);
    assert_eq!(run_outcome(Behaviour::StateMutation, &"get_persons".to_string(), Some(rs)), CheckOutcome::Fails);
}

#[test]
fn results_and_settings() {
    assert_eq!(exploration_result(Behaviour::Property, "op".to_string(), None), ExplorationResult::NoExampleFound { operation: "op".to_string() });
    let w = Some(vec![GeneratedOperation { name: "op".to_string(), parameters: vec![] }]);
    assert_eq!(
        exploration_result(Behaviour::StateIdentity, "op".to_string(), w.clone()),
        ExplorationResult::StateIdentity { query_operation: "op".to_string(), minimal_sequence: w }
    );
    assert_eq!(Behaviour::Property.presentation(), "Response Check");
    let mut s = StateMutationSettings::new();
    s.query_operation_ids = vec![4, 5, 6];
    s.selected_query_operation = Some(1);
    s.remove_selected_query_operation();
    assert_eq!(s.query_operation_ids, vec![4, 6]);
    assert_eq!(s.selected_query_operation, Some(0));
    s.remove_selected_query_operation();
    assert_eq!(s.selected_query_operation, None);
    assert_eq!(ExplorationSettings::new().state_mutation.number_of_tests, 100);
}

#[test]
fn state_behaviours_draw_from_state_changing_operations() {
    let mk = |n: &str, m: HTTPMethod| op(n, vec![], vec![], Some(OperationMetaData::HTTP { url: "/p".to_string(), method: m }));
    let ops = vec![mk("g", HTTPMethod::GET), mk("p", HTTPMethod::POST), mk("u", HTTPMethod::PUT), mk("d", HTTPMethod::DELETE), op("bare", vec![], vec![], None)];
    let names = |v: Vec<Operation>| v.iter().map(|o| o.info.name.clone()).collect::<Vec<_>>();
    assert_eq!(names(valid_operations(Behaviour::StateMutation, &ops)), vec!["p", "u", "bare"]);
    assert_eq!(names(valid_operations(Behaviour::StateIdentity, &ops)), vec!["p", "d", "bare"]);
}
