use graphql_pipeline::ast::Document;
use graphql_pipeline::ast::Operation;
use graphql_pipeline::ast::OperationKind;
use graphql_pipeline::ast::Pos;
use graphql_pipeline::ast::Selection;
use graphql_pipeline::ast::Field;
use graphql_pipeline::ast::FragmentDefinition;
use graphql_pipeline::ast::TypeRef;
use graphql_pipeline::ast::VariableDefinition;
use graphql_pipeline::context::ValidationError;
use graphql_pipeline::extract::ExtractOpts;
use graphql_pipeline::extract::ExtractionError;
use graphql_pipeline::extract::HttpRequestModel;
use graphql_pipeline::extract::HttpMethod;
use graphql_pipeline::extract::MultipartForm;
use graphql_pipeline::extract::RequestBody;
use graphql_pipeline::extract::UploadedFile;
use graphql_pipeline::extract::extract;
use graphql_pipeline::extract::extract_multipart;
use graphql_pipeline::extract::request_from_json;
use graphql_pipeline::json::JsonValue;
use graphql_pipeline::json::parse_json;
use graphql_pipeline::json::to_json_text;
use graphql_pipeline::pipeline::PrepareError;
use graphql_pipeline::pipeline::QueryBuilder;
use graphql_pipeline::pipeline::default_rules;
use graphql_pipeline::pipeline::run_validation;
use graphql_pipeline::registry::Registry;
use graphql_pipeline::registry::TypeDef;
use graphql_pipeline::registry::TypeKind;
use graphql_pipeline::response::ExecutionOutcome;
use graphql_pipeline::response::ServerError;
use graphql_pipeline::response::extraction_error_response;
use graphql_pipeline::response::to_response;
use graphql_pipeline::response::validation_error_response;
use graphql_pipeline::rules::upload_file::UploadFile;
use graphql_pipeline::visitor::RuleNil;
use graphql_pipeline::visitor::RulePair;

fn pos(line: u32, column: u32) -> Pos {
    Pos { line, column }
}

fn scalar(name: &str) -> TypeDef {
    TypeDef { name: name.to_string(), kind: TypeKind::Scalar, fields: Vec::new() }
}

fn upload_registry() -> Registry {
    Registry { types: vec![scalar("Upload"), scalar("String"), scalar("Int")] }
}

fn field(name: &str) -> Selection {
    Selection::Field(Field {
        alias: None,
        name: name.to_string(),
        arguments: Vec::new(),
        directives: Vec::new(),
        selection_set: Vec::new(),
        position: pos(1, 1),
    })
}

fn upload_var_doc(kind: OperationKind) -> Document {
    Document {
        operations: vec![Operation {
            kind,
            name: Some("Q".to_string()),
            variable_definitions: vec![VariableDefinition {
                name: "f".to_string(),
                var_type: TypeRef::Named("Upload".to_string()),
                default_value: None,
                position: pos(1, 9),
            }],
            directives: Vec::new(),
            selection_set: vec![field("dummy")],
            position: pos(1, 1),
        }],
        fragments: Vec::new(),
    }
}

#[test]
fn json_body_round_trip_preserves_fields() {
    let body = parse_json(
        "{\"query\":\"{ dummy }\",\"variables\":{\"a\":1},\"operationName\":\"Q\"}",
    )
    .unwrap();
    let req = request_from_json(&body).unwrap();
    assert_eq!(req.query, "{ dummy }");
    assert_eq!(req.operation_name.as_deref(), Some("Q"));
    assert_eq!(to_json_text(&req.variables), "{\"a\":1}");
    assert_eq!(req.uploads.len(), 0);
}

#[test]
fn json_body_defaults_apply() {
    let body = parse_json("{\"query\":\"{ dummy }\"}").unwrap();
    let req = request_from_json(&body).unwrap();
    assert_eq!(req.query, "{ dummy }");
    assert!(req.operation_name.is_none());
    assert_eq!(to_json_text(&req.variables), "{}");
}

#[test]
fn empty_query_is_missing() {
    let body = parse_json("{\"query\":\"\"}").unwrap();
    assert!(matches!(request_from_json(&body), Err(ExtractionError::MissingQuery)));
    let body2 = parse_json("{\"variables\":{}}").unwrap();
    assert!(matches!(request_from_json(&body2), Err(ExtractionError::MissingQuery)));
}

#[test]
fn parser_handles_values_and_rejects_malformed() {
    assert!(parse_json("{\"a\": [1, -2, true, false, null, \"x\\ny\"]}").is_some());
    assert!(parse_json("{").is_none());
    assert!(parse_json("{\"a\":}").is_none());
    assert!(parse_json("12 34").is_none());
    assert!(parse_json("\"\\q\"").is_none());
    assert!(parse_json("").is_none());
}

#[test]
fn serializer_emits_canonical_text() {
    let v = parse_json(" { \"a\" : 1 , \"b\" : [ true , null ] , \"c\" : \"x\\\"y\" } ").unwrap();
    assert_eq!(to_json_text(&v), "{\"a\":1,\"b\":[true,null],\"c\":\"x\\\"y\"}");
    let neg = parse_json("[-12, 0, 9007]").unwrap();
    assert_eq!(to_json_text(&neg), "[-12,0,9007]");
}

#[test]
fn multipart_resolves_placeholder_at_path() {
    let form = MultipartForm {
        operations: Some(
            "{\"query\":\"mutation M($f: Upload) { up }\",\"variables\":{\"f\":null}}".to_string(),
        ),
        map: Some("{\"0\":[\"variables.f\"]}".to_string()),
        files: vec![UploadedFile {
            name: "0".to_string(),
            filename: Some("a.txt".to_string()),
            content: b"hello".to_vec(),
        }],
    };
    let req = extract_multipart(form, &ExtractOpts::unlimited()).unwrap();
    assert_eq!(to_json_text(&req.variables), "{\"f\":null}");
    match &req.variables {
        JsonValue::Obj(members) => {
            assert!(matches!(members[0].1, JsonValue::Upload(0)));
        }
        _ => panic!("variables must be an object"),
    }
    assert_eq!(req.uploads.len(), 1);
    assert_eq!(req.uploads[0].content, b"hello".to_vec());
}

#[test]
fn multipart_resolves_array_index_paths() {
    let form = MultipartForm {
        operations: Some(
            "{\"query\":\"mutation M($fs: [Upload!]!) { up }\",\"variables\":{\"fs\":[null,null]}}"
                .to_string(),
        ),
        map: Some("{\"a\":[\"variables.fs.0\"],\"b\":[\"variables.fs.1\"]}".to_string()),
        files: vec![
            UploadedFile { name: "a".to_string(), filename: None, content: b"1".to_vec() },
            UploadedFile { name: "b".to_string(), filename: None, content: b"2".to_vec() },
        ],
    };
    let req = extract_multipart(form, &ExtractOpts::unlimited()).unwrap();
    match &req.variables {
        JsonValue::Obj(members) => match &members[0].1 {
            JsonValue::Arr(items) => {
                assert!(matches!(items[0], JsonValue::Upload(0)));
                assert!(matches!(items[1], JsonValue::Upload(1)));
            }
            _ => panic!("fs must be an array"),
        },
        _ => panic!("variables must be an object"),
    }
}

#[test]
fn multipart_missing_part_fails() {
    let form = MultipartForm {
        operations: Some(
            "{\"query\":\"mutation M($f: Upload) { up }\",\"variables\":{\"f\":null}}".to_string(),
        ),
        map: Some("{\"missing\":[\"variables.f\"]}".to_string()),
        files: Vec::new(),
    };
    assert!(matches!(
        extract_multipart(form, &ExtractOpts::unlimited()),
        Err(ExtractionError::MalformedBody)
    ));
}

#[test]
fn multipart_limits_are_enforced() {
    let file = UploadedFile { name: "0".to_string(), filename: None, content: b"abcd".to_vec() };
    let form = MultipartForm {
        operations: Some("{\"query\":\"{ d }\"}".to_string()),
        map: Some("{}".to_string()),
        files: vec![file],
    };
    let mut opts = ExtractOpts::unlimited();
    opts.max_file_count = Some(0);
    assert!(matches!(
        extract_multipart(
            MultipartForm {
                operations: form.operations.clone(),
                map: form.map.clone(),
                files: form.files.iter().map(|f| UploadedFile {
                    name: f.name.clone(),
                    filename: f.filename.clone(),
                    content: f.content.clone(),
                }).collect(),
            },
            &opts
        ),
        Err(ExtractionError::LimitExceeded)
    ));
    let mut opts2 = ExtractOpts::unlimited();
    opts2.max_file_size_bytes = Some(3);
    assert!(matches!(extract_multipart(form, &opts2), Err(ExtractionError::LimitExceeded)));
}

#[test]
fn get_request_reads_parameters() {
    let req = HttpRequestModel {
        method: HttpMethod::Get,
        content_type: None,
        body: RequestBody::Text(String::new()),
        params: vec![
            ("query".to_string(), "{ dummy }".to_string()),
            ("variables".to_string(), "{\"a\":2}".to_string()),
            ("operationName".to_string(), "Q".to_string()),
        ],
    };
    let out = extract(req, &ExtractOpts::unlimited()).unwrap();
    assert_eq!(out.query, "{ dummy }");
    assert_eq!(out.operation_name.as_deref(), Some("Q"));
    assert_eq!(to_json_text(&out.variables), "{\"a\":2}");
}

#[test]
fn unsupported_content_type_is_rejected() {
    let req = HttpRequestModel {
        method: HttpMethod::Post,
        content_type: Some("text/plain".to_string()),
        body: RequestBody::Text("{\"query\":\"{ d }\"}".to_string()),
        params: Vec::new(),
    };
    assert!(matches!(
        extract(req, &ExtractOpts::unlimited()),
        Err(ExtractionError::UnsupportedContentType)
    ));
}

#[test]
fn body_size_limit_is_enforced() {
    let req = HttpRequestModel {
        method: HttpMethod::Post,
        content_type: Some("application/json".to_string()),
        body: RequestBody::Text("{\"query\":\"{ d }\"}".to_string()),
        params: Vec::new(),
    };
    let mut opts = ExtractOpts::unlimited();
    opts.max_body_size_bytes = Some(4);
    assert!(matches!(extract(req, &opts), Err(ExtractionError::LimitExceeded)));
}

#[test]
fn upload_variable_on_query_is_flagged_once() {
    let registry = upload_registry();
    let doc = upload_var_doc(OperationKind::Query);
    let mut rules = default_rules();
    let errors = run_validation(&registry, &doc, &mut rules).unwrap();
    assert_eq!(errors.len(), 1);
    assert_eq!(
        errors[0].message,
        "The Upload type is only allowed to be defined on a mutation"
    );
    assert_eq!(errors[0].positions, vec![pos(1, 9)]);
}

#[test]
fn upload_variable_on_mutation_is_clean() {
    let registry = upload_registry();
    let doc = upload_var_doc(OperationKind::Mutation);
    let mut rules = default_rules();
    let errors = run_validation(&registry, &doc, &mut rules).unwrap();
    assert!(errors.is_empty());
}

#[test]
fn undeclared_upload_type_is_not_flagged() {
    let registry = Registry { types: vec![scalar("String")] };
    let doc = upload_var_doc(OperationKind::Query);
    let mut rules = default_rules();
    let errors = run_validation(&registry, &doc, &mut rules).unwrap();
    assert!(errors.is_empty());
}

#[test]
fn validation_is_deterministic_across_runs() {
    let registry = upload_registry();
    let doc = upload_var_doc(OperationKind::Query);
    let mut first_rules = default_rules();
    let first = run_validation(&registry, &doc, &mut first_rules).unwrap();
    let mut second_rules = default_rules();
    let second = run_validation(&registry, &doc, &mut second_rules).unwrap();
    assert_eq!(first.len(), second.len());
    for (a, b) in first.iter().zip(second.iter()) {
        assert_eq!(a.message, b.message);
        assert_eq!(a.positions, b.positions);
    }
}

#[test]
fn composite_runs_every_rule_in_order() {
    let registry = upload_registry();
    let doc = upload_var_doc(OperationKind::Query);
    let mut rules = RulePair { first: UploadFile, rest: RulePair { first: UploadFile, rest: RuleNil } };
    let errors = run_validation(&registry, &doc, &mut rules).unwrap();
    assert_eq!(errors.len(), 2);
    assert_eq!(errors[0].message, errors[1].message);
}

fn spread(name: &str) -> Selection {
    Selection::FragmentSpread {
        name: name.to_string(),
        directives: Vec::new(),
        position: pos(2, 3),
    }
}

fn fragment(name: &str, body: Vec<Selection>) -> FragmentDefinition {
    FragmentDefinition {
        name: name.to_string(),
        type_condition: "T".to_string(),
        directives: Vec::new(),
        selection_set: body,
        position: pos(3, 1),
    }
}

#[test]
fn fragment_cycle_is_detected_not_looped() {
    let doc = Document {
        operations: vec![Operation {
            kind: OperationKind::Query,
            name: None,
            variable_definitions: Vec::new(),
            directives: Vec::new(),
            selection_set: vec![spread("A")],
            position: pos(1, 1),
        }],
        fragments: vec![
            fragment("A", vec![spread("B")]),
            fragment("B", vec![spread("A")]),
        ],
    };
    let registry = upload_registry();
    let mut rules = default_rules();
    let cycle = run_validation(&registry, &doc, &mut rules).unwrap_err();
    assert!(cycle.name == "A" || cycle.name == "B");
}

#[test]
fn acyclic_fragments_expand_cleanly() {
    let doc = Document {
        operations: vec![Operation {
            kind: OperationKind::Query,
            name: None,
            variable_definitions: Vec::new(),
            directives: Vec::new(),
            selection_set: vec![spread("A")],
            position: pos(1, 1),
        }],
        fragments: vec![
            fragment("A", vec![spread("B"), field("x")]),
            fragment("B", vec![field("y")]),
        ],
    };
    let registry = upload_registry();
    let mut rules = default_rules();
    assert!(run_validation(&registry, &doc, &mut rules).unwrap().is_empty());
}

#[test]
fn prepare_selects_named_operation() {
    let mut doc = upload_var_doc(OperationKind::Mutation);
    doc.operations.push(Operation {
        kind: OperationKind::Query,
        name: Some("Other".to_string()),
        variable_definitions: Vec::new(),
        directives: Vec::new(),
        selection_set: vec![field("dummy")],
        position: pos(5, 1),
    });
    let registry = upload_registry();
    let body = parse_json("{\"query\":\"x\",\"operationName\":\"Other\"}").unwrap();
    let req = request_from_json(&body).unwrap();
    let builder = QueryBuilder::new(req).with_complexity_limit(7);
    let mut rules = default_rules();
    let prepared = builder.prepare(&doc, &registry, &mut rules).unwrap();
    assert_eq!(prepared.operation_index, 1);
    assert_eq!(prepared.complexity_limit, Some(7));
}

#[test]
fn prepare_reports_not_found_and_ambiguous() {
    let registry = upload_registry();
    let doc = upload_var_doc(OperationKind::Mutation);
    let body = parse_json("{\"query\":\"x\",\"operationName\":\"Nope\"}").unwrap();
    let req = request_from_json(&body).unwrap();
    let mut rules = default_rules();
    assert!(matches!(
        QueryBuilder::new(req).prepare(&doc, &registry, &mut rules),
        Err(PrepareError::OperationNotFound)
    ));

    let mut doc2 = upload_var_doc(OperationKind::Mutation);
    doc2.operations.push(Operation {
        kind: OperationKind::Query,
        name: None,
        variable_definitions: Vec::new(),
        directives: Vec::new(),
        selection_set: vec![field("dummy")],
        position: pos(9, 1),
    });
    let body2 = parse_json("{\"query\":\"x\"}").unwrap();
    let req2 = request_from_json(&body2).unwrap();
    let mut rules2 = default_rules();
    assert!(matches!(
        QueryBuilder::new(req2).prepare(&doc2, &registry, &mut rules2),
        Err(PrepareError::AmbiguousOperation)
    ));
}

#[test]
fn prepare_surfaces_validation_errors() {
    let registry = upload_registry();
    let doc = upload_var_doc(OperationKind::Query);
    let body = parse_json("{\"query\":\"x\"}").unwrap();
    let req = request_from_json(&body).unwrap();
    let mut rules = default_rules();
    match QueryBuilder::new(req).prepare(&doc, &registry, &mut rules) {
        Err(PrepareError::ValidationFailed(errors)) => {
            assert_eq!(errors.len(), 1);
            assert_eq!(errors[0].positions, vec![pos(1, 9)]);
        }
        _ => panic!("validation must fail"),
    }
}

#[test]
fn upload_on_query_maps_to_positioned_400() {
    let registry = upload_registry();
    let doc = upload_var_doc(OperationKind::Query);
    let mut rules = default_rules();
    let errors: Vec<ValidationError> = run_validation(&registry, &doc, &mut rules).unwrap();
    let resp = validation_error_response(&errors);
    assert_eq!(resp.status, 400);
    assert_eq!(
        resp.body,
        "{\"errors\":[{\"message\":\"The Upload type is only allowed to be defined on a mutation\",\"locations\":[{\"line\":1,\"column\":9}]}]}"
    );
}

#[test]
fn engine_outcome_maps_to_200_with_data() {
    let data = parse_json("{\"add\":3}").unwrap();
    let outcome = ExecutionOutcome { data, errors: Vec::new() };
    let resp = to_response(&outcome);
    assert_eq!(resp.status, 200);
    assert_eq!(resp.body, "{\"data\":{\"add\":3}}");
}

#[test]
fn partial_success_keeps_data_and_errors() {
    let data = parse_json("{\"add\":null}").unwrap();
    let outcome = ExecutionOutcome {
        data,
        errors: vec![ServerError {
            message: "boom".to_string(),
            locations: vec![pos(1, 3)],
        }],
    };
    let resp = to_response(&outcome);
    assert_eq!(resp.status, 200);
    assert_eq!(
        resp.body,
        "{\"data\":{\"add\":null},\"errors\":[{\"message\":\"boom\",\"locations\":[{\"line\":1,\"column\":3}]}]}"
    );
}

#[test]
fn parser_bounds_integers_at_machine_width() {
    assert_eq!(
        to_json_text(&parse_json("9223372036854775807").unwrap()),
        "9223372036854775807"
    );
    assert!(matches!(parse_json("9223372036854775807").unwrap(), JsonValue::Int(_)));
    assert!(matches!(parse_json("9223372036854775808").unwrap(), JsonValue::NumLit(_)));
    assert_eq!(
        to_json_text(&parse_json("-9223372036854775808").unwrap()),
        "-9223372036854775808"
    );
    assert_eq!(to_json_text(&parse_json("-1").unwrap()), "-1");
}

#[test]
fn parser_carries_fractions_and_exponents_as_lexemes() {
    assert_eq!(to_json_text(&parse_json("3.5").unwrap()), "3.5");
    assert_eq!(to_json_text(&parse_json("1e-3").unwrap()), "1e-3");
    assert_eq!(to_json_text(&parse_json("[0.25E+2, 2]").unwrap()), "[0.25E+2,2]");
    assert!(parse_json("1.").is_none());
    assert!(parse_json("1e").is_none());
    let outcome = ExecutionOutcome {
        data: parse_json("{\"x\":3.5}").unwrap(),
        errors: Vec::new(),
    };
    assert_eq!(to_response(&outcome).body, "{\"data\":{\"x\":3.5}}");
}

#[test]
fn parser_decodes_unicode_escapes() {
    match parse_json("\"\\u0041\\u00e9\"").unwrap() {
        JsonValue::Str(s) => assert_eq!(s, "A\u{e9}"),
        _ => panic!("must be a string"),
    }
    assert!(parse_json("\"\\uD800\"").is_none());
    assert!(parse_json("\"\\u12G4\"").is_none());
    let body = parse_json("{\"query\":\"\\u0041\"}").unwrap();
    let req = request_from_json(&body).unwrap();
    assert_eq!(req.query, "A");
}

#[test]
fn missing_content_type_takes_json_looking_bodies() {
    let req = HttpRequestModel {
        method: HttpMethod::Post,
        content_type: None,
        body: RequestBody::Text(" {\"query\":\"{ d }\"}".to_string()),
        params: Vec::new(),
    };
    let out = extract(req, &ExtractOpts::unlimited()).unwrap();
    assert_eq!(out.query, "{ d }");
    let req2 = HttpRequestModel {
        method: HttpMethod::Post,
        content_type: None,
        body: RequestBody::Text("plain text".to_string()),
        params: Vec::new(),
    };
    assert!(matches!(
        extract(req2, &ExtractOpts::unlimited()),
        Err(ExtractionError::UnsupportedContentType)
    ));
}

#[test]
fn configure_hook_runs_once_over_the_builder() {
    let body = parse_json("{\"query\":\"x\"}").unwrap();
    let req = request_from_json(&body).unwrap();
    let builder = QueryBuilder::new(req).configure(|b| b.with_depth_limit(4));
    assert_eq!(builder.depth_limit, Some(4));
    assert_eq!(builder.complexity_limit, None);
}

#[test]
fn malformed_body_maps_to_exact_400() {
    let req = HttpRequestModel {
        method: HttpMethod::Post,
        content_type: Some("application/json".to_string()),
        body: RequestBody::Text("this is not json".to_string()),
        params: Vec::new(),
    };
    let err = extract(req, &ExtractOpts::unlimited()).unwrap_err();
    assert!(matches!(err, ExtractionError::MalformedBody));
    let resp = extraction_error_response(&err);
    assert_eq!(resp.status, 400);
    assert_eq!(resp.body, "{\"errors\":[{\"message\":\"MalformedBody\"}]}");
}
