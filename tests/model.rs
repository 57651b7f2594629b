use quickrest::amos::{Definition, Domain, Operation, OperationInfo, OperationMetaData, Parameter, ParameterMetaData, ParameterOwnership, Property, Response, Schema, AMOS};
use quickrest::http::HTTPMethod::{GET, POST};
use quickrest::http::{HTTPParameterTarget, HTTPStatus};
use quickrest::ingest::open_api_v2_to_amos;
use quickrest::open_api::{
    DataType as OpenAPIDataType, Definition as OpenAPIDefinition, DefinitionKind, DefinitionPath,
    Operation as OpenAPIOperation, OperationParameter, OperationResponse, ParameterIn,
    Property as OpenAPIProperty, Schema as OpenAPISchema,
};

#[test]
fn definition_to_amos() {
    let definition = OpenAPIDefinition {
        name: "Product".to_string(),
        path: DefinitionPath { path: "#/definition/Product".to_string() },
        kind: DefinitionKind::Object,
        properties: Some(vec![
            OpenAPIProperty {
                name: "constraints".to_string(),
                kind: OpenAPIDataType::ArrayOfUniqueRefItems("#/definitions/FeatureConstraint".to_string()),
            },
            OpenAPIProperty {
                name: "features".to_string(),
                kind: OpenAPIDataType::ArrayOfUniqueRefItems("#/definitions/Feature".to_string()),
            },
            OpenAPIProperty { name: "id".to_string(), kind: OpenAPIDataType::Integer64 },
            OpenAPIProperty { name: "name".to_string(), kind: OpenAPIDataType::String },
        ]),
    };

    let amos = open_api_v2_to_amos(&vec![], &vec![definition]).amos;

    assert_eq!(
        amos.definitions,
        vec![Definition {
            name: "Product".to_string(),
            key: "definition/Product".to_string(),
            schema: Schema::Object {
                properties: vec![
                    Property {
                        name: "constraints".to_string(),
                        schema: Schema::ArrayOfUniqueRefItems("#/definitions/FeatureConstraint".to_string())
                    },
                    Property {
                        name: "features".to_string(),
                        schema: Schema::ArrayOfUniqueRefItems("#/definitions/Feature".to_string())
                    },
                    Property { name: "id".to_string(), schema: Schema::Int },
                    Property { name: "name".to_string(), schema: Schema::String }
                ]
            }
        }]
    )
}

fn path_param(name: &str) -> OperationParameter {
    OperationParameter { name: name.to_string(), kind: OpenAPIDataType::String, target: ParameterIn::Path, required: true }
}

#[test]
fn post_operation_with_path_and_form_data_ingested() {
    let op = OpenAPIOperation {
        url: "/products/{productName}/constraints/requires".to_string(),
        method: POST,
        id: "addRequiresConstraintToProduct".to_string(),
        produces: vec![],
        consumes: vec![],
        parameters: vec![
            path_param("productName"),
            OperationParameter { name: "sourceFeature".to_string(), kind: OpenAPIDataType::String, target: ParameterIn::FormData, required: false },
            OperationParameter { name: "requiredFeature".to_string(), kind: OpenAPIDataType::String, target: ParameterIn::FormData, required: false },
        ],
        responses: vec![OperationResponse { status: HTTPStatus::OK, description: "successful operation".to_string(), schema: None }],
    };
    let amos = open_api_v2_to_amos(&[op], &[]).amos;
    assert_eq!(
        amos.operations,
        vec![Operation {
            info: OperationInfo {
                name: "addRequiresConstraintToProduct".to_string(),
                key: "operation/addRequiresConstraintToProduct".to_string()
            },
            parameters: vec![
                Parameter {
                    name: "productName".to_string(),
                    schema: Schema::StringNonEmpty,
                    required: true,
                    ownership: ParameterOwnership::Dependency,
                    meta_data: Some(ParameterMetaData::HTTP { target: HTTPParameterTarget::Path })
                },
                Parameter {
                    name: "sourceFeature".to_string(),
                    schema: Schema::String,
                    required: false,
                    ownership: ParameterOwnership::Owned,
                    meta_data: Some(ParameterMetaData::HTTP { target: HTTPParameterTarget::FormData })
                },
                Parameter {
                    name: "requiredFeature".to_string(),
                    schema: Schema::String,
                    required: false,
                    ownership: ParameterOwnership::Owned,
                    meta_data: Some(ParameterMetaData::HTTP { target: HTTPParameterTarget::FormData })
                }
            ],
            responses: vec![Response { name: "successful operation".to_string(), schema: Schema::Int }],
            meta_data: Some(OperationMetaData::HTTP {
                url: "/products/{productName}/constraints/requires".to_string(),
                method: POST
            })
        }]
    )
}

#[test]
fn post_to_full_path_owns_last_placeholder_and_header_is_an_error() {
    let op = OpenAPIOperation {
        url: "/products/{productName}".to_string(),
        method: POST,
        id: "addProduct".to_string(),
        produces: vec![],
        consumes: vec![],
        parameters: vec![
            path_param("productName"),
            OperationParameter { name: "token".to_string(), kind: OpenAPIDataType::String, target: ParameterIn::Header, required: false },
        ],
        responses: vec![
            OperationResponse { status: HTTPStatus::OK, description: "ok".to_string(), schema: Some(OpenAPIDataType::Schema(OpenAPISchema::Ref("#/definitions/Product".to_string()))) },
            OperationResponse { status: HTTPStatus::Unsupported, description: "teapot".to_string(), schema: None },
        ],
    };
    let result = open_api_v2_to_amos(&[op], &[]);
    let ops = result.amos.operations;
    assert_eq!(ops[0].parameters[0].ownership, ParameterOwnership::Owned);
    assert_eq!(ops[0].parameters[1].meta_data, Some(ParameterMetaData::HTTP { target: HTTPParameterTarget::Unsupported }));
    assert_eq!(ops[0].parameters[1].ownership, ParameterOwnership::Unknown);
    assert_eq!(ops[0].responses[0].schema, Schema::Reference("#/definitions/Product".to_string()));
    assert_eq!(ops[0].responses[1].schema, Schema::Unsupported);
    assert_eq!(result.errors.len(), 1);
    assert_eq!(result.warnings.len(), 1);
}

fn news_model() -> AMOS {
    let body_ref = Parameter {
        name: "news".to_string(),
        schema: Schema::Reference("#/definitions/NewsDto".to_string()),
        required: false,
        ownership: ParameterOwnership::Unknown,
        meta_data: Some(ParameterMetaData::HTTP { target: HTTPParameterTarget::Body }),
    };
    let missing_ref = Parameter {
        name: "other".to_string(),
        schema: Schema::Reference("#/definitions/Missing".to_string()),
        required: true,
        ownership: ParameterOwnership::Unknown,
        meta_data: Some(ParameterMetaData::HTTP { target: HTTPParameterTarget::Body }),
    };
    let mut amos = AMOS::new();
    amos.definitions.push(Definition {
        name: "NewsDto".to_string(),
        key: "definition/NewsDto".to_string(),
        schema: Schema::Object {
            properties: vec![
                Property { name: "authorId".to_string(), schema: Schema::String },
                Property { name: "creationTime".to_string(), schema: Schema::StringDateTime },
            ],
        },
    });
    amos.push_operation(Operation {
        info: OperationInfo { name: "createNewsUsingPOST".to_string(), key: "operation/createNewsUsingPOST".to_string() },
        parameters: vec![body_ref],
        responses: vec![],
        meta_data: Some(OperationMetaData::HTTP { url: "/news".to_string(), method: POST }),
    });
    amos.push_operation(Operation {
        info: OperationInfo { name: "broken".to_string(), key: "operation/broken".to_string() },
        parameters: vec![missing_ref],
        responses: vec![],
        meta_data: Some(OperationMetaData::HTTP { url: "/x".to_string(), method: GET }),
    });
    amos
}

#[test]
fn resolve_parameter_with_object_definition() {
    let amos = news_model();
    assert_eq!(amos.find_operation("createNewsUsingPOST"), Some(&amos.operations[0]));
    assert_eq!(amos.find_operation("nothing"), None);
    assert_eq!(amos.find_definition("NewsDto"), Some(&amos.definitions[0]));
    let resolved = amos.resolve_operation("createNewsUsingPOST").unwrap();
    let body = Some(ParameterMetaData::HTTP { target: HTTPParameterTarget::Body });
    assert_eq!(
        resolved.parameters,
        vec![
            Parameter { name: "authorId".to_string(), schema: Schema::String, required: false, ownership: ParameterOwnership::Unknown, meta_data: body },
            Parameter { name: "creationTime".to_string(), schema: Schema::StringDateTime, required: false, ownership: ParameterOwnership::Unknown, meta_data: body },
        ]
    );
    assert!(resolved.parameters.iter().all(|p| !matches!(p.schema, Schema::Reference(_))));
    assert_eq!(resolved.info, amos.operations[0].info);
}

#[test]
fn unresolvable_reference_is_kept() {
    let amos = news_model();
    let resolved = amos.resolve_operation("broken").unwrap();
    assert_eq!(resolved.parameters, amos.operations[1].parameters);
    assert_eq!(amos.resolve_operation("nothing"), None);
    assert_eq!(amos.domain, Domain { data: "".to_string() });
}

#[test]
fn schema_copies_and_equality() {
    let s = Schema::Object { properties: vec![Property { name: "a".to_string(), schema: Schema::Object { properties: vec![] } }] };
    let c = s.deep_copy();
    assert_eq!(c, s);
    assert!(c.same_as(&s));
    assert!(!Schema::Int.same_as(&Schema::Int32));
    assert!(!Schema::Reference("a".to_string()).same_as(&Schema::Reference("b".to_string())));
}

fn openapi_op(url: &str, method: quickrest::http::HTTPMethod, id: &str, parameters: Vec<OperationParameter>, responses: Vec<OperationResponse>) -> OpenAPIOperation {
    OpenAPIOperation { url: url.to_string(), method, id: id.to_string(), produces: vec![], consumes: vec![], parameters, responses }
}

fn ok_response(schema: Option<OpenAPIDataType>) -> OperationResponse {
    OperationResponse { status: HTTPStatus::OK, description: "successful operation".to_string(), schema }
}

#[test]
fn get_operation_to_amos() {
    let op = openapi_op("/products", GET, "getAllProducts", vec![], vec![ok_response(Some(OpenAPIDataType::ArrayOfStrings))]);
    let amos = open_api_v2_to_amos(&vec![op], &vec![]).amos;
    assert_eq!(
        amos.operations,
        vec![Operation {
            info: OperationInfo { name: "getAllProducts".to_string(), key: "operation/getAllProducts".to_string() },
            parameters: vec![],
            responses: vec![Response { name: "successful operation".to_string(), schema: Schema::ArrayOfString }],
            meta_data: Some(OperationMetaData::HTTP { url: "/products".to_string(), method: GET })
        }]
    )
}

#[test]
fn post_operation_to_amos() {
    let op = openapi_op("/products/{productName}", POST, "addProduct", vec![path_param("productName")], vec![ok_response(None)]);
    let amos = open_api_v2_to_amos(&vec![op], &vec![]).amos;
    assert_eq!(
        amos.operations,
        vec![Operation {
            info: OperationInfo { name: "addProduct".to_string(), key: "operation/addProduct".to_string() },
            parameters: vec![Parameter {
                name: "productName".to_string(),
                schema: Schema::StringNonEmpty,
                ownership: ParameterOwnership::Owned,
                required: true,
                meta_data: Some(ParameterMetaData::HTTP { target: HTTPParameterTarget::Path })
            }],
            responses: vec![Response { name: "successful operation".to_string(), schema: Schema::Int }],
            meta_data: Some(OperationMetaData::HTTP { url: "/products/{productName}".to_string(), method: POST })
        }]
    )
}

#[test]
fn response_with_definition() {
    let op = openapi_op(
        "/products/{productName}",
        GET,
        "getProductByName",
        vec![path_param("productName")],
        vec![ok_response(Some(OpenAPIDataType::Schema(OpenAPISchema::Ref("#/definitions/Product".to_string()))))],
    );
    let amos = open_api_v2_to_amos(&vec![op], &vec![]).amos;
    assert_eq!(
        amos.operations,
        vec![Operation {
            info: OperationInfo { name: "getProductByName".to_string(), key: "operation/getProductByName".to_string() },
            parameters: vec![Parameter {
                name: "productName".to_string(),
                schema: Schema::StringNonEmpty,
                required: true,
                ownership: ParameterOwnership::Dependency,
                meta_data: Some(ParameterMetaData::HTTP { target: HTTPParameterTarget::Path })
            }],
            responses: vec![Response {
                name: "successful operation".to_string(),
                schema: Schema::Reference("#/definitions/Product".to_string())
            }],
            meta_data: Some(OperationMetaData::HTTP { url: "/products/{productName}".to_string(), method: GET })
        }]
    )
}

#[test]
fn resolve_parameter_with_definition_reference() {
    let news_dto = OpenAPIDefinition {
        name: "NewsDto".to_string(),
        path: DefinitionPath { path: "#/definitions/NewsDto".to_string() },
        kind: DefinitionKind::Object,
        properties: Some(
            [("authorId", OpenAPIDataType::String), ("country", OpenAPIDataType::String), ("creationTime", OpenAPIDataType::StringDateTime), ("id", OpenAPIDataType::String), ("newsId", OpenAPIDataType::String), ("text", OpenAPIDataType::String)]
                .into_iter()
                .map(|(n, k)| OpenAPIProperty { name: n.to_string(), kind: k })
                .collect(),
        ),
    };
    let status = |s: HTTPStatus, d: &str| OperationResponse { status: s, description: d.to_string(), schema: None };
    let op = openapi_op(
        "/news",
        POST,
        "createNewsUsingPOST",
        vec![OperationParameter {
            name: "dto".to_string(),
            kind: OpenAPIDataType::Schema(OpenAPISchema::Ref("#/definitions/NewsDto".to_string())),
            target: ParameterIn::Body,
            required: false,
        }],
        vec![
            status(HTTPStatus::OK, "OK"),
            status(HTTPStatus::Created, "Created"),
            status(HTTPStatus::Unauthorized, "Unauthorized"),
            status(HTTPStatus::Forbidden, "Forbidden"),
            status(HTTPStatus::NotFound, "Not Found"),
        ],
    );
    let amos = open_api_v2_to_amos(&vec![op], &vec![news_dto]).amos;
    let op_resolved = amos.resolve_operation("createNewsUsingPOST");
    let body = |n: &str, schema: Schema| Parameter {
        name: n.to_string(),
        schema,
        required: false,
        ownership: ParameterOwnership::Unknown,
        meta_data: Some(ParameterMetaData::HTTP { target: HTTPParameterTarget::Body }),
    };
    let int_response = |n: &str| Response { name: n.to_string(), schema: Schema::Int };
    assert_eq!(
        op_resolved,
        Some(Operation {
            info: OperationInfo { name: "createNewsUsingPOST".to_string(), key: "operation/createNewsUsingPOST".to_string() },
            parameters: vec![
                body("authorId", Schema::String),
                body("country", Schema::String),
                body("creationTime", Schema::StringDateTime),
                body("id", Schema::String),
                body("newsId", Schema::String),
                body("text", Schema::String),
            ],
            responses: vec![
                int_response("OK"),
                int_response("Created"),
                int_response("Unauthorized"),
                int_response("Forbidden"),
                int_response("Not Found"),
            ],
            meta_data: Some(OperationMetaData::HTTP { url: "/news".to_string(), method: POST }),
        })
    )
}

#[test]
fn duplicate_parameters_are_dropped_with_a_warning() {
    let dup = OperationParameter { name: "productName".to_string(), kind: OpenAPIDataType::Integer32, target: ParameterIn::Query, required: false };
    let op = openapi_op("/products/{productName}", GET, "getProduct", vec![path_param("productName"), dup, path_param("other"), path_param("productName")], vec![]);
    let result = open_api_v2_to_amos(&vec![op], &vec![]);
    let names: Vec<String> = result.amos.operations[0].parameters.iter().map(|p| p.name.clone()).collect();
    assert_eq!(names, vec!["productName", "other"]);
    assert_eq!(result.amos.operations[0].parameters[0].schema, Schema::StringNonEmpty);
    assert_eq!(result.warnings.iter().filter(|w| w.message == "Duplicate parameter dropped").count(), 2);
}
