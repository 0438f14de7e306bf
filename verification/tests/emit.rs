use abeye::document::{
    Config, ContentRef, Document, InputApi, MediaType, OperationNode, PathItem, PathRef,
};
use abeye::error::{Construct, Error, Failure, Place};
use abeye::document::Method;
use abeye::generate::{declaration, declaration_with, declared_types, generate_ts, module_ts};
use abeye::operation::{Operation, RequestKind, ResponseKind};
use abeye::schema::{Components, Schema, SchemaKind, SchemaRef};
use abeye::ts::{join, operation_name, operation_ts};
use abeye::types::{Property, Type};

fn ident(value: &str) -> Type {
    Type::Ident(value.to_string())
}

fn field(name: &str, ty: Type, optional: bool) -> (String, Property) {
    (name.to_string(), Property { ty, optional })
}

fn item(kind: SchemaKind) -> SchemaRef {
    SchemaRef::Item(Box::new(Schema { kind, discriminator: None }))
}

fn api_with(schemas: Vec<(&str, SchemaRef)>, paths: Vec<(&str, PathRef)>, prefix: Option<&str>) -> InputApi {
    InputApi::new(
        Document {
            components: Components {
                schemas: schemas.into_iter().map(|(n, s)| (n.to_string(), s)).collect(),
            },
            paths: paths.into_iter().map(|(p, i)| (p.to_string(), i)).collect(),
        },
        Config { api_prefix: prefix.map(|p| p.to_string()) },
    )
}

fn bare(response: Option<ResponseKind>) -> Operation {
    Operation { path: "/things".to_string(), query: vec![], path_params: vec![], body: None, response }
}

#[test]
fn primitives_are_written_by_name() {
    assert_eq!(Type::Number.ts(), "number");
    assert_eq!(Type::String.ts(), "string");
    assert_eq!(Type::Boolean.ts(), "boolean");
    assert_eq!(Type::Reference("Foo".to_string()).ts(), "Foo");
}

#[test]
fn literal_is_written_quoted_and_escaped() {
    assert_eq!(ident("x").ts(), "\"x\"");
    assert_eq!(ident("say \"hi\"\n").ts(), "\"say \\\"hi\\\"\\n\"");
    assert_eq!(ident("").ts(), "\"\"");
}

#[test]
fn array_tuple_union_and_intersection_are_written_with_their_marks() {
    assert_eq!(Type::Array(Box::new(Type::Number)).ts(), "number[]");
    assert_eq!(Type::Tuple(vec![Type::Number, Type::String]).ts(), "[number, string]");
    assert_eq!(Type::Tuple(vec![]).ts(), "[]");
    assert_eq!(Type::Or(vec![ident("a"), ident("b"), Type::Number]).ts(), "\"a\" | \"b\" | number");
    assert_eq!(Type::And(vec![Type::Reference("A".to_string()), Type::Reference("B".to_string())]).ts(), "A & B");
    assert_eq!(Type::Or(vec![]).ts(), "");
    assert_eq!(Type::Or(vec![Type::Boolean]).ts(), "boolean");
}

#[test]
fn object_is_written_field_by_field() {
    assert_eq!(Type::Object(vec![]).ts(), "{}");
    let ty = Type::Object(vec![field("a", Type::Number, false), field("b", Type::String, true)]);
    assert_eq!(ty.ts(), "{\n  a: number;\n  b?: string;\n}");
}

#[test]
fn nested_objects_are_indented_once_more() {
    let inner = Type::Object(vec![field("x", Type::Boolean, false)]);
    let ty = Type::Object(vec![
        field("in", inner.clone(), false),
        field("list", Type::Array(Box::new(inner)), true),
    ]);
    assert_eq!(
        ty.ts(),
        "{\n  in: {\n    x: boolean;\n  };\n  list?: {\n    x: boolean;\n  }[];\n}"
    );
}

#[test]
fn join_puts_the_separator_between_parts() {
    let parts = |v: &[&str]| v.iter().map(|s| s.to_string()).collect::<Vec<String>>();
    assert_eq!(join(&parts(&[]), ", "), "");
    assert_eq!(join(&parts(&["a"]), ", "), "a");
    assert_eq!(join(&parts(&["a", "b", "c"]), ", "), "a, b, c");
    assert_eq!(join(&parts(&["a", "", "c"]), "_"), "a__c");
}

#[test]
fn operation_name_is_lower_camel_case() {
    let parts = |v: &[&str]| v.iter().map(|s| s.to_string()).collect::<Vec<String>>();
    assert_eq!(operation_name(&parts(&["explore", "export"])), "exploreExport");
    assert_eq!(operation_name(&parts(&["/", "webgraph", "host", "ingoing"])), "webgraphHostIngoing");
    assert_eq!(operation_name(&parts(&["Users", "{id}"])), "usersId");
    assert_eq!(operation_name(&parts(&[])), "");
}

#[test]
fn operation_without_arguments_is_written() {
    let op = bare(Some(ResponseKind::Plain));
    assert_eq!(
        operation_ts(&op, "GET", "/things"),
        Ok("(options?: ApiOptions) => requestPlain(\"GET\", `/things`, options)".to_string())
    );
}

#[test]
fn operation_with_all_arguments_is_written() {
    let op = Operation {
        path: "/things/{id}".to_string(),
        query: vec![field("q", Type::String, false)],
        path_params: vec![field("id", Type::Number, false)],
        body: Some(RequestKind::Json(Type::Reference("Thing".to_string()))),
        response: Some(ResponseKind::Json(Type::Array(Box::new(Type::Reference("Thing".to_string()))))),
    };
    assert_eq!(
        operation_ts(&op, "POST", "things/{id}"),
        Ok(concat_all(&[
            "(params: {\n  id: number;\n}, query: {\n  q: string;\n}, body: Thing, options?: ApiOptions)",
            " => requestJson<Thing[]>(\"POST\", `things/{id}?${new URLSearchParams(params)}`, body, options)",
        ]))
    );
}

fn concat_all(parts: &[&str]) -> String {
    parts.iter().map(|p| p.to_string()).collect::<Vec<String>>().join("")
}

#[test]
fn operation_with_query_only_sends_the_query() {
    let op = Operation {
        query: vec![field("q", Type::String, false)],
        ..bare(Some(ResponseKind::EventStream(Type::Number)))
    };
    assert_eq!(
        operation_ts(&op, "GET", "/s"),
        Ok(concat_all(&[
            "(query: {\n  q: string;\n}, options?: ApiOptions)",
            " => sse<number>(\"GET\", `/s?${new URLSearchParams(query)}`, options)",
        ]))
    );
}

#[test]
fn operation_without_response_has_no_generated_function() {
    assert_eq!(
        operation_ts(&bare(None), "GET", "/things"),
        Err(Error::UnsupportedConstruct(Construct::MissingResponse))
    );
    let api = api_with(vec![], vec![], None);
    assert_eq!(
        bare(None).ts(&api, "GET"),
        Err(Error::UnsupportedConstruct(Construct::MissingResponse))
    );
}

#[test]
fn operation_is_named_by_its_path_without_the_prefix() {
    let op = Operation {
        path: "/beta/api/explore/export".to_string(),
        ..bare(Some(ResponseKind::Plain))
    };
    let api = api_with(vec![], vec![], Some("/beta/api"));
    assert_eq!(
        op.ts(&api, "GET"),
        Ok((
            "exploreExport".to_string(),
            "(options?: ApiOptions) => requestPlain(\"GET\", `explore/export`, options)".to_string()
        ))
    );
    let api = api_with(vec![], vec![], None);
    assert_eq!(
        op.ts(&api, "GET"),
        Ok((
            "betaApiExploreExport".to_string(),
            "(options?: ApiOptions) => requestPlain(\"GET\", `/beta/api/explore/export`, options)"
                .to_string()
        ))
    );
}

#[test]
fn operation_outside_the_prefix_is_rejected() {
    let op = Operation { path: "/other/x".to_string(), ..bare(Some(ResponseKind::Plain)) };
    let api = api_with(vec![], vec![], Some("/beta/api"));
    assert_eq!(op.ts(&api, "GET"), Err(Error::UnsupportedConstruct(Construct::PathPrefix)));
    // only whole components count as a prefix
    let op = Operation { path: "/beta/apiary".to_string(), ..bare(Some(ResponseKind::Plain)) };
    assert_eq!(op.ts(&api, "GET"), Err(Error::UnsupportedConstruct(Construct::PathPrefix)));
}

#[test]
fn declaration_of_a_plain_type() {
    let ty = Type::Object(vec![field("a", Type::Number, false)]);
    assert_eq!(declaration("Thing", &ty), "export type Thing = {\n  a: number;\n};\n");
    assert_eq!(declaration_with("Thing", &ty, "ignored"), "export type Thing = {\n  a: number;\n};\n");
}

#[test]
fn declaration_of_a_union_of_literals_lists_its_values() {
    let ty = Type::Or(vec![ident("red"), ident("green")]);
    assert_eq!(
        declaration("Color", &ty),
        concat_all(&[
            "export type Color = \"red\" | \"green\";\n",
            "export const COLORS = [\"red\", \"green\"] satisfies Color[];\n",
        ])
    );
    assert_eq!(
        declaration_with("Color", &ty, "colorNames"),
        concat_all(&[
            "export type Color = \"red\" | \"green\";\n",
            "export const COLOR_NAMES = [\"red\", \"green\"] satisfies Color[];\n",
        ])
    );
}

#[test]
fn declaration_of_a_single_literal_uses_the_singular() {
    let ty = Type::Or(vec![ident("only")]);
    assert_eq!(
        declaration("Modes", &ty),
        concat_all(&[
            "export type Modes = \"only\";\n",
            "export const MODE = [\"only\"] satisfies Modes[];\n",
        ])
    );
}

#[test]
fn module_text_is_preamble_operations_and_declarations() {
    let entries = vec![
        ("a".to_string(), "() => {\n  x\n}".to_string()),
        ("b".to_string(), "() => y".to_string()),
    ];
    let declarations = vec!["type A = 1;\n".to_string(), "type B = 2;\n".to_string()];
    assert_eq!(
        module_ts("// head", &entries, &declarations),
        "// head\nexport const api = {\n  a: () => {\n    x\n  },\n  b: () => y,\n};\n\ntype A = 1;\ntype B = 2;\n"
    );
    assert_eq!(module_ts("", &vec![], &vec![]), "\nexport const api = {\n\n};\n\n");
}

#[test]
fn declared_types_skip_names_with_underscores() {
    let api = api_with(
        vec![
            ("Color", item(SchemaKind::String(vec![Some("red".to_string())]))),
            ("Inner_Part", item(SchemaKind::Number)),
            ("Pair", item(SchemaKind::OneOf(vec![item(SchemaKind::Number), item(SchemaKind::Number)]))),
        ],
        vec![],
        None,
    );
    assert_eq!(
        declared_types(&api),
        Ok(vec![
            ("Color".to_string(), Type::Or(vec![ident("red")])),
            ("Pair".to_string(), Type::Or(vec![Type::Number])),
        ])
    );
}

#[test]
fn declared_types_fail_on_the_first_schema_that_cannot_be_resolved() {
    let api = api_with(
        vec![
            ("Hidden_One", item(SchemaKind::AnyOf)),
            ("Bad", item(SchemaKind::Not)),
            ("Worse", item(SchemaKind::Any)),
        ],
        vec![],
        None,
    );
    assert_eq!(
        declared_types(&api),
        Err(Failure {
            error: Error::UnsupportedConstruct(Construct::Not),
            place: Place::Schema("Bad".to_string()),
        })
    );
}

fn get_json(kind: SchemaKind) -> PathRef {
    PathRef::Item(PathItem {
        parameters: 0,
        delete: None,
        get: Some(OperationNode {
            parameters: vec![],
            request_body: None,
            responses: vec![ContentRef::Item(vec![MediaType {
                name: "application/json".to_string(),
                schema: Some(item(kind)),
            }])],
        }),
        put: None,
        post: None,
        head: None,
        trace: None,
        patch: None,
    })
}

#[test]
fn generate_writes_the_whole_module() {
    let api = api_with(
        vec![
            ("Color", item(SchemaKind::String(vec![Some("red".to_string()), Some("blue".to_string())]))),
            ("Point", item(SchemaKind::Array {
                items: Some(item(SchemaKind::Number)),
                min_items: Some(2),
                max_items: Some(2),
            })),
        ],
        vec![
            ("/api/colors", get_json(SchemaKind::Array {
                items: Some(SchemaRef::Reference("#/components/schemas/Color".to_string())),
                min_items: None,
                max_items: None,
            })),
            ("/api/origin", get_json(SchemaKind::Boolean)),
        ],
        Some("/api"),
    );
    assert_eq!(
        generate_ts(&api, "// preamble"),
        Ok(concat_all(&[
            "// preamble\n",
            "export const api = {\n",
            "  colors: (options?: ApiOptions) => requestJson<Color[]>(\"GET\", `colors`, options),\n",
            "  origin: (options?: ApiOptions) => requestJson<boolean>(\"GET\", `origin`, options),\n",
            "};\n",
            "\n",
            "export type Color = \"blue\" | \"red\";\n",
            "export const COLORS = [\"blue\", \"red\"] satisfies Color[];\n",
            "export type Point = [number, number];\n",
        ]))
    );
}

#[test]
fn generate_fails_on_an_operation_without_response() {
    let silent = PathRef::Item(PathItem {
        parameters: 0,
        delete: None,
        get: None,
        put: None,
        post: Some(OperationNode { parameters: vec![], request_body: None, responses: vec![] }),
        head: None,
        trace: None,
        patch: None,
    });
    let api = api_with(vec![], vec![("/quiet", silent)], None);
    assert_eq!(
        generate_ts(&api, ""),
        Err(Failure {
            error: Error::UnsupportedConstruct(Construct::MissingResponse),
            place: Place::Operation { path: "/quiet".to_string(), method: Method::Post },
        })
    );
}

#[test]
fn an_unresolved_reference_names_the_schema_it_was_met_in() {
    let api = api_with(
        vec![(
            "Holder",
            item(SchemaKind::OneOf(vec![SchemaRef::Reference(
                "#/components/schemas/Not_There".to_string(),
            )])),
        )],
        vec![],
        None,
    );
    assert_eq!(
        generate_ts(&api, ""),
        Err(Failure { error: Error::UnresolvedReference, place: Place::Schema("Holder".to_string()) })
    );
}

#[test]
fn generate_fails_on_what_it_cannot_take() {
    let api = api_with(vec![], vec![("/x", PathRef::Reference)], None);
    assert_eq!(
        generate_ts(&api, ""),
        Err(Failure {
            error: Error::UnsupportedConstruct(Construct::PathReference),
            place: Place::Path("/x".to_string()),
        })
    );
    let api = api_with(
        vec![("Fine", item(SchemaKind::Number)), ("Bad", item(SchemaKind::AnyOf))],
        vec![],
        None,
    );
    assert_eq!(
        generate_ts(&api, ""),
        Err(Failure {
            error: Error::UnsupportedConstruct(Construct::AnyOf),
            place: Place::Schema("Bad".to_string()),
        })
    );
    let api = api_with(
        vec![],
        vec![("/api/fine", get_json(SchemaKind::Number)), ("/x", get_json(SchemaKind::Number))],
        Some("/api"),
    );
    assert_eq!(
        generate_ts(&api, ""),
        Err(Failure {
            error: Error::UnsupportedConstruct(Construct::PathPrefix),
            place: Place::Operation { path: "/x".to_string(), method: Method::Get },
        })
    );
}

#[test]
fn empty_lines_are_not_indented() {
    let entries = vec![("a".to_string(), "x\n\ny\n".to_string())];
    assert_eq!(
        module_ts("", &entries, &vec![]),
        "\nexport const api = {\n  a: x\n\n  y\n  ,\n};\n\n"
    );
    let entries = vec![("".to_string(), "\nq".to_string())];
    assert_eq!(module_ts("", &entries, &vec![]), "\nexport const api = {\n  : \n  q,\n};\n\n");
}
