use quickrest::amos::{Operation, OperationInfo, OperationMetaData};
use quickrest::buckets::{bucketize_for_state_identity_strategy, bucketize_for_state_identity_update_strategy, BucketKind, Buckets};
use quickrest::http::HTTPMethod;

fn op(name: &str, url: &str, method: HTTPMethod) -> Operation {
    Operation {
        info: OperationInfo { name: name.to_string(), key: format!("operation/{}", name) },
        parameters: vec![],
        responses: vec![],
        meta_data: Some(OperationMetaData::HTTP { url: url.to_string(), method }),
    }
}

fn sample() -> Vec<Operation> {
    vec![
        op("listPersons", "/persons", HTTPMethod::GET),
        op("getPerson", "/persons/{id}", HTTPMethod::GET),
        op("getPersonPets", "/persons/{id}/pets", HTTPMethod::GET),
        op("deletePerson", "/persons/{id}", HTTPMethod::DELETE),
        op("createPerson", "/persons", HTTPMethod::POST),
        op("putPerson", "/persons/{id}", HTTPMethod::POST),
        op("addPet", "/persons/{id}/pets", HTTPMethod::POST),
        op("replacePerson", "/persons/{id}", HTTPMethod::PUT),
        op("replacePets", "/persons/{id}/pets", HTTPMethod::PUT),
        op("weird", "/x", HTTPMethod::Unsupported),
        Operation { info: OperationInfo { name: "bare".to_string(), key: "k".to_string() }, parameters: vec![], responses: vec![], meta_data: None },
    ]
}

#[test]
fn classification_follows_url_shape_and_method() {
    let b = Buckets::new(&sample());
    let got: Vec<(String, u8, BucketKind)> = b.items.iter().map(|i| (i.name.clone(), i.precedence, i.kind)).collect();
    assert_eq!(
        got,
        vec![
            ("listPersons".to_string(), 0, BucketKind::Read),
            ("getPerson".to_string(), 1, BucketKind::Read),
            ("getPersonPets".to_string(), 2, BucketKind::Read),
            ("deletePerson".to_string(), 3, BucketKind::Delete),
            ("createPerson".to_string(), 0, BucketKind::Create),
            ("putPerson".to_string(), 1, BucketKind::Create),
            ("addPet".to_string(), 2, BucketKind::Update),
            ("replacePerson".to_string(), 1, BucketKind::Update),
            ("replacePets".to_string(), 2, BucketKind::Update),
        ]
    );
}

#[test]
fn index_maps_precedence_to_positions() {
    let b = Buckets::new(&sample());
    let mut index = b.index.clone();
    index.sort();
    assert_eq!(
        index,
        vec![(0, vec![0, 4]), (1, vec![1, 5, 7]), (2, vec![2, 6, 8]), (3, vec![3])]
    );
    assert_eq!(b.find(&sample()[3]).map(|i| i.precedence), Some(3));
    assert!(b.find(&sample()[9]).is_none());
}

#[test]
fn finders_filter_by_kind_and_range() {
    let b = Buckets::new(&sample());
    let names = |v: Vec<&quickrest::buckets::BucketItem>| v.iter().map(|i| i.name.clone()).collect::<Vec<_>>();
    assert_eq!(names(b.find_create_operations_with_precedence(0, 1)), vec!["createPerson", "putPerson"]);
    assert_eq!(names(b.find_read_operations_with_precedence(1, 2)), vec!["getPerson", "getPersonPets"]);
    assert_eq!(names(b.find_update_operations_with_precedence(2, 2)), vec!["addPet", "replacePets"]);
    assert_eq!(names(b.find_delete_operations_with_precedence(2, 3)), vec!["deletePerson"]);
}

#[test]
fn state_identity_templates() {
    let b = Buckets::new(&sample());
    let slots = b.bucketize_for_state_identity(2);
    assert_eq!(slots.len(), 5);
    assert_eq!(slots[0].iter().map(|i| i.name.clone()).collect::<Vec<_>>(), vec!["putPerson"]);
    assert_eq!(slots[1].iter().map(|i| i.name.clone()).collect::<Vec<_>>(), vec!["deletePerson"]);
    assert!(slots[2].is_empty() && slots[3].is_empty() && slots[4].is_empty());
    let five = bucketize_for_state_identity_strategy(&b, 5);
    assert_eq!(five[4].iter().map(|i| i.name.clone()).collect::<Vec<_>>(), Vec::<String>::new());
    let upd = bucketize_for_state_identity_update_strategy(&b, 3);
    assert_eq!(upd[1].iter().map(|i| i.name.clone()).collect::<Vec<_>>(), vec!["addPet", "replacePets"]);
    assert_eq!(upd[2].iter().map(|i| i.name.clone()).collect::<Vec<_>>(), vec!["deletePerson"]);
}
