use quickrest::amos::{Operation, OperationInfo, OperationMetaData, Parameter, ParameterOwnership, Schema};
use quickrest::buckets::{bucket_operations, Buckets};
use quickrest::generation::{check_seeds, generates_empty_value, string_pattern, place_query_operation, query_position_range, GenOperation, ParameterValue, QueryOptions};
use quickrest::http::HTTPMethod;
use quickrest::relations::{Relation, RelationInfo};
use quickrest::synthesize::check_draw;

fn op(name: &str, param: &str) -> Operation {
    Operation {
        info: OperationInfo { name: name.to_string(), key: format!("operation/{name}") },
        parameters: vec![Parameter {
            name: param.to_string(),
            schema: Schema::String,
            required: true,
            ownership: ParameterOwnership::Owned,
            meta_data: None,
        }],
        responses: vec![],
        meta_data: None,
    }
}

fn text(v: &str, seed: i32) -> ParameterValue {
    ParameterValue::StringValue { value: v.to_string(), seed, active: true }
}

#[test]
fn query_positions_around_the_precedence() {
    assert_eq!(query_position_range(&QueryOptions { precedence: 2, slack_min: 1, slack_max: 1 }), (1, 3));
    assert_eq!(query_position_range(&QueryOptions { precedence: 1, slack_min: 3, slack_max: 0 }), (0, 1));
}

#[test]
fn query_operation_is_placed_and_linked() {
    let query = (op("getUser", "userId"), vec![text("q", 2)]);
    let slots = vec![
        GenOperation::Generated((op("createUser", "userId"), vec![text("a", 3)])),
        GenOperation::Empty,
        GenOperation::Generated((op("deleteUser", "userId"), vec![text("b", 4)])),
    ];
    let (q, seq) = place_query_operation(2, &query, &slots);
    assert_eq!(q, 1);
    let names: Vec<String> = seq.iter().map(|(o, _)| o.info.name.clone()).collect();
    assert_eq!(names, vec!["createUser", "getUser", "deleteUser"]);
    assert_eq!(seq[0].1, vec![text("a", 3)]);
    // the query operation refers to the create before it
    match &seq[1].1[0] {
        ParameterValue::Reference { relation: Relation::Parameter(info), idx, .. } => {
            assert_eq!(info.operation, "createUser");
            assert_eq!(*idx, [0, 0]);
        }
        other => panic!("not linked: {other:?}"),
    }
    // the delete has two candidates and picks number 4 mod 2 = 0
    match &seq[2].1[0] {
        ParameterValue::Reference { relation: Relation::Parameter(info), .. } => assert_eq!(info.op_idx, 0),
        other => panic!("not linked: {other:?}"),
    }
    assert!(check_draw(&seq));

    let (q, seq) = place_query_operation(9, &query, &slots);
    assert_eq!(q, 1);
    assert_eq!(seq.len(), 3);
    let (q, seq) = place_query_operation(0, &query, &slots);
    assert_eq!(q, 0);
    assert_eq!(seq[0].0.info.name, "getUser");
}

#[test]
fn bucket_slots_become_operations() {
    let mk = |n: &str, url: &str, m: HTTPMethod| Operation {
        info: OperationInfo { name: n.to_string(), key: n.to_string() },
        parameters: vec![],
        responses: vec![],
        meta_data: Some(OperationMetaData::HTTP { url: url.to_string(), method: m }),
    };
    let ops = vec![mk("create", "/u/{id}", HTTPMethod::POST), mk("get", "/u/{id}", HTTPMethod::GET)];
    let b = Buckets::new(&ops);
    let slot = b.find_create_operations_with_precedence(1, 1);
    let found = bucket_operations(&slot, &ops);
    assert_eq!(found, vec![ops[0].clone()]);
    assert!(bucket_operations(&slot, &vec![]).is_empty());
}

#[test]
fn draw_and_seed_checks() {
    let link = |op_idx: usize| ParameterValue::Reference {
        active: true,
        idx: [op_idx, 0],
        fallback: Box::new(text("f", 2)),
        relation: Relation::Parameter(RelationInfo {
            operation: "o".to_string(),
            name: "p".to_string(),
            schema: Schema::String,
            strength: 1,
            op_idx,
            idx: 0,
        }),
    };
    let good = vec![(op("o", "p"), vec![text("a", 1)]), (op("o", "p"), vec![link(0)])];
    assert!(check_draw(&good));
    let forward = vec![(op("o", "p"), vec![link(1)]), (op("o", "p"), vec![text("a", 1)])];
    assert!(!check_draw(&forward));
    let to_empty = vec![(op("o", "p"), vec![ParameterValue::Empty]), (op("o", "p"), vec![link(0)])];
    assert!(!check_draw(&to_empty));
    assert!(check_seeds(&good));
    assert!(!check_seeds(&vec![(op("o", "p"), vec![text("a", 11)])]));
    assert!(!check_seeds(&vec![(op("o", "p"), vec![text("a", 0)])]));
}

#[test]
fn generator_schema_decisions() {
    assert!(generates_empty_value(&Schema::Number));
    assert!(generates_empty_value(&Schema::Reference("#/definitions/X".to_string())));
    assert!(!generates_empty_value(&Schema::Int));
    assert_eq!(string_pattern(&Schema::String), Some("[a-z]*".to_string()));
    assert_eq!(string_pattern(&Schema::StringNonEmpty), Some("[a-z]+".to_string()));
    assert_eq!(string_pattern(&Schema::StringRegex { regex: "ab?".to_string() }), Some("ab?".to_string()));
    assert_eq!(string_pattern(&Schema::Bool), None);
}
