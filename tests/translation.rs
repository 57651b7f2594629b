use std::collections::HashMap;

use quickrest::amos::{InvokeResult, Operation, OperationInfo, OperationMetaData, Parameter, ParameterMetaData, ParameterOwnership, ResultMetaData, Schema};
use quickrest::generation::{GeneratedOperation, GeneratedParameter, Octets, ParameterValue};
use quickrest::http::HTTPMethod::{DELETE, GET};
use quickrest::http::HTTPParameterTarget::{Body, FormData, Path, Query};
use quickrest::http::{HTTPConfiguration, HTTPParameterTarget, HTTPResult, HTTPStatus, Protocol};
use quickrest::relations::{Relation, RelationInfo};
use quickrest::translation::{
    lookup_in_document, JsonTop, Lookup, parameters_to_json_str, translate_generated_operation_to_http_call, translate_http_result,
    translate_operation, translate_parameters, TranslationError,
};

fn string_param(name: &str, value: &str, seed: i32) -> GeneratedParameter {
    GeneratedParameter {
        name: name.to_string(),
        value: ParameterValue::StringValue { value: value.to_string(), seed, active: true },
        ref_path: None,
    }
}

fn int_param(name: &str, value: i64, seed: i32) -> GeneratedParameter {
    GeneratedParameter {
        name: name.to_string(),
        value: ParameterValue::IntValue { value, seed, active: true },
        ref_path: None,
    }
}

fn amos_param(name: &str, schema: Schema, target: HTTPParameterTarget) -> Parameter {
    Parameter {
        name: name.to_string(),
        schema,
        required: true,
        ownership: ParameterOwnership::Owned,
        meta_data: Some(ParameterMetaData::HTTP { target }),
    }
}

fn two_params() -> GeneratedOperation {
    GeneratedOperation {
        name: "deleteFeature".to_string(),
        parameters: vec![string_param("productName", "foo", 1), int_param("configurationName", 123, 2)],
    }
}

#[test]
fn parameters_to_json_str_conversion() {
    let gen_op = two_params();
    let result = parameters_to_json_str(&gen_op.parameters).unwrap();
    assert_eq!("{\"productName\":\"foo\",\"configurationName\":123}", result)
}

#[test]
fn translate_params_form_data() {
    let gen_op = two_params();
    let amos_params = vec![
        amos_param("productName", Schema::String, FormData),
        amos_param("configurationName", Schema::Int, Path),
    ];
    let translation = translate_parameters(&gen_op.parameters, &amos_params, &[], "/configurations/{configurationName}")
        .unwrap()
        .unwrap();
    let url = translation.url.clone();
    let form: HashMap<String, String> = translation.form_data.unwrap().into_iter().collect();
    assert_eq!(url, "/configurations/123");
    assert_eq!(form, HashMap::from([("productName".to_owned(), "foo".to_owned())]))
}

#[test]
fn translate_params_path() {
    let gen_op = GeneratedOperation {
        name: "deleteFeature".to_string(),
        parameters: vec![string_param("productName", "foo", 1), string_param("configurationName", "bar", 2)],
    };
    let amos_params = vec![
        amos_param("productName", Schema::String, Path),
        amos_param("configurationName", Schema::String, Path),
    ];
    let translation = translate_parameters(
        &gen_op.parameters,
        &amos_params,
        &[],
        "/products/{productName}/configurations/{configurationName}/features/",
    );
    assert_eq!(translation.unwrap().unwrap().url, "/products/foo/configurations/bar/features/")
}

#[test]
fn translate_query_params() {
    let gen_op = two_params();
    let amos_params = vec![
        amos_param("productName", Schema::String, Query),
        amos_param("configurationName", Schema::Int, Query),
    ];
    let translation = translate_parameters(&gen_op.parameters, &amos_params, &[], "/configurations");
    assert_eq!(translation.unwrap().unwrap().url, "/configurations?productName=foo&configurationName=123");
}

#[test]
fn translate_body_params() {
    let gen_op = two_params();
    let amos_params = vec![
        amos_param("productName", Schema::String, Body),
        amos_param("configurationName", Schema::Int, Body),
    ];
    let translation = translate_parameters(&gen_op.parameters, &amos_params, &[], "/configurations").unwrap().unwrap();
    let url = translation.url.clone();
    let body: HashMap<String, String> = translation.body.unwrap().into_iter().collect();
    assert_eq!(url, "/configurations");
    assert_eq!(
        body,
        HashMap::from([
            ("configurationName".to_owned(), "123".to_owned()),
            ("productName".to_owned(), "foo".to_owned())
        ])
    )
}

#[test]
fn empty_path_string_abandons_the_call() {
    let params = vec![string_param("uid", "", 1)];
    let amos_params = vec![amos_param("uid", Schema::StringNonEmpty, Path)];
    assert_eq!(translate_parameters(&params, &amos_params, &[], "/users/{uid}"), Ok(None));
}

#[test]
fn empty_path_value_abandons_the_call() {
    let params = vec![GeneratedParameter { name: "uid".to_string(), value: ParameterValue::Empty, ref_path: None }];
    let amos_params = vec![amos_param("uid", Schema::Unsupported, Path)];
    assert_eq!(translate_parameters(&params, &amos_params, &[], "/users/{uid}"), Ok(None));
}

fn earlier_result(payload: &str, success: bool) -> InvokeResult {
    InvokeResult::new(
        GeneratedOperation { name: "getUsers".to_string(), parameters: vec![] },
        payload.to_string(),
        success,
        Some(ResultMetaData::HTTP { url: "http://h:1/users".to_string(), status: HTTPStatus::OK }),
    )
}

fn response_reference(name: &str, fallback: &str) -> GeneratedParameter {
    GeneratedParameter {
        name: name.to_string(),
        value: ParameterValue::Reference {
            active: true,
            idx: [0, 0],
            fallback: Box::new(ParameterValue::StringValue { value: fallback.to_string(), seed: 3, active: true }),
            relation: Relation::Response(RelationInfo {
                operation: "getUsers".to_string(),
                name: "successful operation".to_string(),
                schema: Schema::ArrayOfString,
                strength: 1,
                op_idx: 0,
                idx: 0,
            }),
        },
        ref_path: None,
    }
}

#[test]
fn path_reference_to_empty_array_abandons_the_call() {
    let params = vec![response_reference("uid", "abc")];
    let amos_params = vec![amos_param("uid", Schema::StringNonEmpty, Path)];
    let results = vec![earlier_result("[]", true)];
    assert_eq!(translate_parameters(&params, &amos_params, &results, "/users/{uid}"), Ok(None));
}

#[test]
fn path_reference_takes_first_string_of_the_array() {
    let params = vec![response_reference("uid", "abc")];
    let amos_params = vec![amos_param("uid", Schema::String, Path)];
    let results = vec![earlier_result("[\"alice\", \"bob\"]", true)];
    let t = translate_parameters(&params, &amos_params, &results, "/users/{uid}").unwrap().unwrap();
    assert_eq!(t.url, "/users/alice");
}

#[test]
fn query_reference_to_unsuccessful_call_uses_fallback() {
    let params = vec![response_reference("who", "abc")];
    let amos_params = vec![amos_param("who", Schema::String, Query)];
    let results = vec![earlier_result("[\"alice\"]", false)];
    let t = translate_parameters(&params, &amos_params, &results, "/users").unwrap().unwrap();
    assert_eq!(t.url, "/users?who=abc");
}

#[test]
fn reference_to_non_json_payload_is_an_error() {
    let params = vec![response_reference("who", "abc")];
    let amos_params = vec![amos_param("who", Schema::String, Query)];
    let results = vec![earlier_result("not json", true)];
    assert_eq!(
        translate_parameters(&params, &amos_params, &results, "/users"),
        Err(TranslationError::InvalidResponse)
    );
}

#[test]
fn reference_past_the_results_is_an_error() {
    let params = vec![response_reference("who", "abc")];
    let amos_params = vec![amos_param("who", Schema::String, Query)];
    assert_eq!(
        translate_parameters(&params, &amos_params, &[], "/users"),
        Err(TranslationError::MissingResult)
    );
}

#[test]
fn unknown_parameter_is_an_error() {
    let params = vec![string_param("ghost", "x", 1)];
    assert_eq!(translate_parameters(&params, &[], &[], "/users"), Err(TranslationError::UnknownParameter));
}

#[test]
fn path_renders_ipv4_bool_and_arrays() {
    let params = vec![
        GeneratedParameter { name: "ip".to_string(), value: ParameterValue::IPV4Value { value: Octets(10, 0, 0, 255), seed: 1, active: true }, ref_path: None },
        GeneratedParameter { name: "on".to_string(), value: ParameterValue::BoolValue { value: true, seed: 1, active: true }, ref_path: None },
        GeneratedParameter { name: "tags".to_string(), value: ParameterValue::ArrayOfString { value: vec!["a".to_string(), "b".to_string()], seed: 1, active: true }, ref_path: None },
        int_param("n", -42, 1),
    ];
    let amos_params = vec![
        amos_param("ip", Schema::IPV4, Path),
        amos_param("on", Schema::Bool, Path),
        amos_param("tags", Schema::ArrayOfString, Path),
        amos_param("n", Schema::Int, Path),
    ];
    let t = translate_parameters(&params, &amos_params, &[], "/{ip}/{on}/{tags}/{n}").unwrap().unwrap();
    assert_eq!(t.url, "/10.0.0.255/true/a,b/-42");
}

#[test]
fn file_form_data_goes_to_the_file_map() {
    let params = vec![
        GeneratedParameter { name: "upload".to_string(), value: ParameterValue::File { value: 7, seed: 1, active: true }, ref_path: None },
        string_param("title", "x", 1),
    ];
    let amos_params = vec![amos_param("upload", Schema::File, FormData), amos_param("title", Schema::String, FormData)];
    let t = translate_parameters(&params, &amos_params, &[], "/files").unwrap().unwrap();
    assert_eq!(t.file_data, Some(vec![("upload".to_string(), "7".to_string())]));
    assert_eq!(t.form_data, Some(vec![("title".to_string(), "x".to_string())]));
    assert_eq!(t.body, None);
}

#[test]
fn full_url_and_result() {
    let config = HTTPConfiguration::new("foo".to_string(), 123, Protocol::HTTP);
    let op = Operation {
        info: OperationInfo { name: "get_persons".to_string(), key: "operation/get_persons".to_string() },
        parameters: vec![],
        responses: vec![],
        meta_data: Some(OperationMetaData::HTTP { url: "/persons".to_string(), method: GET }),
    };
    let gen_op = GeneratedOperation { name: "get_persons".to_string(), parameters: vec![] };
    let call = translate_operation(&config, &gen_op, &op.meta_data, &op, &[]).unwrap().unwrap();
    assert_eq!(call.url, "http://foo:123/persons");
    assert_eq!(call.method, GET);

    let ops = vec![op];
    let (call, url) = translate_generated_operation_to_http_call(&config, &ops, &gen_op, &[]).unwrap().unwrap();
    assert_eq!(url, "http://foo:123/persons");
    let result = translate_http_result(
        HTTPResult { status: HTTPStatus::OK, payload: "[\"Fake result\"]".to_string(), success: true },
        &gen_op,
        call.url.clone(),
    );
    assert_eq!(result.result, "[\"Fake result\"]");
    assert_eq!(result.meta_data, Some(ResultMetaData::HTTP { url: "http://foo:123/persons".to_string(), status: HTTPStatus::OK }));

    let unknown = GeneratedOperation { name: "nope".to_string(), parameters: vec![] };
    assert!(matches!(
        translate_generated_operation_to_http_call(&config, &ops, &unknown, &[]),
        Err(TranslationError::UnknownOperation)
    ));
    let https = HTTPConfiguration::new("h".to_string(), 8443, Protocol::HTTPS);
    let del = Operation {
        info: OperationInfo { name: "d".to_string(), key: "operation/d".to_string() },
        parameters: vec![],
        responses: vec![],
        meta_data: Some(OperationMetaData::HTTP { url: "/x".to_string(), method: DELETE }),
    };
    let gd = GeneratedOperation { name: "d".to_string(), parameters: vec![] };
    assert_eq!(translate_operation(&https, &gd, &del.meta_data, &del, &[]).unwrap().unwrap().url, "https://h:8443/x");
}

#[test]
fn lookup_reads_first_string_of_an_array() {
    let string_param = amos_param("who", Schema::String, Query);
    let int_param_model = amos_param("n", Schema::Int, Query);
    let fallback = ParameterValue::StringValue { value: "fb".to_string(), seed: 4, active: true };
    let doc = Some(JsonTop::Array(vec![Some("alice".to_string()), None]));
    assert_eq!(
        lookup_in_document(&string_param, true, doc.clone(), &fallback),
        Lookup::Found(ParameterValue::StringValue { value: "alice".to_string(), seed: 0, active: false })
    );
    assert_eq!(lookup_in_document(&int_param_model, true, doc.clone(), &fallback), Lookup::Found(fallback.clone()));
    assert_eq!(lookup_in_document(&string_param, false, doc, &fallback), Lookup::Unresolved);
    assert_eq!(lookup_in_document(&string_param, true, Some(JsonTop::Array(vec![])), &fallback), Lookup::Unresolved);
    assert_eq!(lookup_in_document(&string_param, true, Some(JsonTop::Array(vec![None])), &fallback), Lookup::Invalid);
    assert_eq!(lookup_in_document(&string_param, true, Some(JsonTop::Other), &fallback), Lookup::Invalid);
    assert_eq!(lookup_in_document(&string_param, true, None, &fallback), Lookup::Invalid);
}

#[test]
fn every_translation_error_has_an_input() {
    let no_meta = vec![Parameter {
        name: "a".to_string(),
        schema: Schema::String,
        required: true,
        ownership: ParameterOwnership::Owned,
        meta_data: None,
    }];
    assert_eq!(
        translate_parameters(&[string_param("a", "x", 1)], &no_meta, &[], "/p"),
        Err(TranslationError::MissingMetaData)
    );

    let unresolved = GeneratedParameter {
        name: "a".to_string(),
        value: ParameterValue::Reference {
            active: true,
            idx: [0, 0],
            fallback: Box::new(ParameterValue::Empty),
            relation: Relation::Parameter(RelationInfo {
                operation: "o".to_string(),
                name: "a".to_string(),
                schema: Schema::String,
                strength: 1,
                op_idx: 0,
                idx: 0,
            }),
        },
        ref_path: None,
    };
    assert_eq!(
        translate_parameters(&[unresolved], &[amos_param("a", Schema::String, Query)], &[], "/p"),
        Err(TranslationError::UnresolvedReference)
    );

    let flag = GeneratedParameter { name: "f".to_string(), value: ParameterValue::BoolValue { value: true, seed: 1, active: true }, ref_path: None };
    assert_eq!(
        translate_parameters(&[flag.clone()], &[amos_param("f", Schema::Bool, Query)], &[], "/p"),
        Err(TranslationError::UnsupportedValue)
    );
    assert_eq!(
        translate_parameters(&[flag], &[amos_param("f", Schema::Bool, Body)], &[], "/p"),
        Err(TranslationError::UnsupportedValue)
    );
    assert_eq!(parameters_to_json_str(&[GeneratedParameter { name: "x".to_string(), value: ParameterValue::Empty, ref_path: None }]), None);
}

#[test]
fn later_form_values_overwrite_earlier_ones() {
    let params = vec![string_param("k", "first", 1), string_param("other", "o", 1), string_param("k", "second", 1)];
    let amos_params = vec![amos_param("k", Schema::String, FormData), amos_param("other", Schema::String, FormData)];
    let t = translate_parameters(&params, &amos_params, &[], "/f").unwrap().unwrap();
    assert_eq!(
        t.form_data,
        Some(vec![("k".to_string(), "second".to_string()), ("other".to_string(), "o".to_string())])
    );
}

#[test]
fn status_text() {
    assert_eq!(HTTPStatus::InternalServerError.to_text(), "500");
    assert_eq!(HTTPStatus::Default.to_text(), "Default");
}

#[test]
fn json_text_escapes_strings() {
    let params = vec![string_param("q", "say \"hi\"\\\n", 1), int_param("n", -3, 1)];
    assert_eq!(parameters_to_json_str(&params).unwrap(), "{\"q\":\"say \\\"hi\\\"\\\\\\u000a\",\"n\":-3}");
    assert_eq!(parameters_to_json_str(&[]).unwrap(), "{}");
}

#[test]
fn decimal_rendering() {
    assert_eq!(quickrest::text::decimal(0), "0");
    assert_eq!(quickrest::text::decimal(10), "10");
    assert_eq!(quickrest::text::decimal(-7), "-7");
    assert_eq!(quickrest::text::decimal(i64::MAX), i64::MAX.to_string());
    assert_eq!(quickrest::text::decimal(i64::MIN), i64::MIN.to_string());
    assert_eq!(quickrest::text::decimal_usize(usize::MAX), usize::MAX.to_string());
    assert_eq!(quickrest::text::decimal_usize(1203), "1203");
}
