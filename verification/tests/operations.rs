use abeye::document::{
    Config, ContentRef, Document, InputApi, Location, MediaType, Method, OperationNode, Parameter,
    ParameterFormat, ParameterRef, PathItem, PathRef,
};
use abeye::error::{Construct, Error, Failure, Place};
use abeye::generate::operations;
use abeye::operation::{operation, Operation, RequestKind, ResponseKind};
use abeye::schema::{Components, Schema, SchemaKind, SchemaRef};
use abeye::types::{Property, Type};

fn item(kind: SchemaKind) -> SchemaRef {
    SchemaRef::Item(Box::new(Schema { kind, discriminator: None }))
}

fn api_of(paths: Vec<(&str, PathRef)>) -> InputApi {
    InputApi::new(
        Document {
            components: Components { schemas: vec![] },
            paths: paths.into_iter().map(|(p, i)| (p.to_string(), i)).collect(),
        },
        Config { api_prefix: None },
    )
}

fn media(name: &str, kind: SchemaKind) -> MediaType {
    MediaType { name: name.to_string(), schema: Some(item(kind)) }
}

fn content(name: &str, kind: SchemaKind) -> ContentRef {
    ContentRef::Item(vec![media(name, kind)])
}

fn parameter(location: Location, name: &str, kind: SchemaKind) -> ParameterRef {
    ParameterRef::Item(Parameter {
        location,
        name: name.to_string(),
        format: ParameterFormat::Schema(item(kind)),
    })
}

fn node(
    parameters: Vec<ParameterRef>,
    request_body: Option<ContentRef>,
    responses: Vec<ContentRef>,
) -> OperationNode {
    OperationNode { parameters, request_body, responses }
}

fn field(name: &str, ty: Type) -> (String, Property) {
    (name.to_string(), Property { ty, optional: false })
}

fn extract(node: &OperationNode) -> Result<Operation, Error> {
    operation(&api_of(vec![]), "/p".to_string(), node)
}

fn unsupported(construct: Construct) -> Result<Operation, Error> {
    Err(Error::UnsupportedConstruct(construct))
}

fn no_operations() -> PathItem {
    PathItem {
        parameters: 0,
        delete: None,
        get: None,
        put: None,
        post: None,
        head: None,
        trace: None,
        patch: None,
    }
}

#[test]
fn operation_collects_parameters_body_and_response() {
    let op = extract(&node(
        vec![
            parameter(Location::Query, "q", SchemaKind::String(vec![])),
            parameter(Location::Path, "id", SchemaKind::Integer),
            parameter(Location::Query, "limit", SchemaKind::Integer),
        ],
        Some(content("application/json", SchemaKind::OneOf(vec![
            item(SchemaKind::String(vec![])),
            item(SchemaKind::Number),
            item(SchemaKind::String(vec![])),
        ]))),
        vec![content("application/json", SchemaKind::Boolean)],
    ));
    assert_eq!(
        op,
        Ok(Operation {
            path: "/p".to_string(),
            query: vec![field("limit", Type::Number), field("q", Type::String)],
            path_params: vec![field("id", Type::Number)],
            body: Some(RequestKind::Json(Type::Or(vec![Type::Number, Type::String]))),
            response: Some(ResponseKind::Json(Type::Boolean)),
        })
    );
}

#[test]
fn operation_without_anything_is_empty() {
    assert_eq!(
        extract(&node(vec![], None, vec![])),
        Ok(Operation {
            path: "/p".to_string(),
            query: vec![],
            path_params: vec![],
            body: None,
            response: None,
        })
    );
}

#[test]
fn header_parameter_is_rejected() {
    let n = node(vec![parameter(Location::Header, "h", SchemaKind::Number)], None, vec![]);
    assert_eq!(extract(&n), unsupported(Construct::HeaderParameter));
}

#[test]
fn cookie_parameter_is_rejected() {
    let n = node(vec![parameter(Location::Cookie, "c", SchemaKind::Number)], None, vec![]);
    assert_eq!(extract(&n), unsupported(Construct::CookieParameter));
}

#[test]
fn parameter_reference_is_rejected() {
    let n = node(vec![ParameterRef::Reference], None, vec![]);
    assert_eq!(extract(&n), unsupported(Construct::ParameterReference));
}

#[test]
fn parameter_described_by_content_is_rejected() {
    for location in [Location::Query, Location::Path] {
        let p = ParameterRef::Item(Parameter {
            location,
            name: "p".to_string(),
            format: ParameterFormat::Content,
        });
        assert_eq!(extract(&node(vec![p], None, vec![])), unsupported(Construct::ContentParameter));
    }
}

#[test]
fn the_first_failing_parameter_decides() {
    let n = node(
        vec![
            parameter(Location::Query, "ok", SchemaKind::Number),
            parameter(Location::Query, "bad", SchemaKind::Not),
            parameter(Location::Header, "h", SchemaKind::Number),
        ],
        Some(ContentRef::Reference),
        vec![],
    );
    assert_eq!(extract(&n), unsupported(Construct::Not));
}

#[test]
fn request_body_with_two_content_types_is_rejected() {
    let body = ContentRef::Item(vec![
        media("application/json", SchemaKind::Number),
        media("application/xml", SchemaKind::Number),
    ]);
    assert_eq!(extract(&node(vec![], Some(body), vec![])), unsupported(Construct::ContentCount));
}

#[test]
fn request_body_without_content_is_rejected() {
    let body = ContentRef::Item(vec![]);
    assert_eq!(extract(&node(vec![], Some(body), vec![])), unsupported(Construct::ContentCount));
}

#[test]
fn request_body_that_is_not_json_is_rejected() {
    let body = content("text/plain", SchemaKind::String(vec![]));
    assert_eq!(extract(&node(vec![], Some(body), vec![])), unsupported(Construct::MediaType));
}

#[test]
fn request_body_reference_is_rejected() {
    assert_eq!(
        extract(&node(vec![], Some(ContentRef::Reference), vec![])),
        unsupported(Construct::RequestBodyReference)
    );
}

#[test]
fn media_type_without_schema_is_rejected() {
    let body = ContentRef::Item(vec![MediaType { name: "application/json".to_string(), schema: None }]);
    assert_eq!(extract(&node(vec![], Some(body), vec![])), unsupported(Construct::MissingSchema));
}

#[test]
fn body_schema_failure_comes_before_the_media_type() {
    let body = content("application/xml", SchemaKind::AnyOf);
    assert_eq!(extract(&node(vec![], Some(body), vec![])), unsupported(Construct::AnyOf));
}

#[test]
fn plain_text_response_of_a_string_is_plain() {
    let op = extract(&node(vec![], None, vec![content("text/plain", SchemaKind::String(vec![]))]));
    assert_eq!(op.unwrap().response, Some(ResponseKind::Plain));
}

#[test]
fn plain_text_response_of_a_number_is_a_type_mismatch() {
    let op = extract(&node(vec![], None, vec![content("text/plain", SchemaKind::Number)]));
    assert_eq!(op, Err(Error::TypeMismatch));
}

#[test]
fn plain_text_response_of_an_enumeration_is_a_type_mismatch() {
    let kind = SchemaKind::String(vec![Some("a".to_string())]);
    let op = extract(&node(vec![], None, vec![content("text/plain", kind)]));
    assert_eq!(op, Err(Error::TypeMismatch));
}

#[test]
fn event_stream_response_carries_its_type() {
    let op = extract(&node(vec![], None, vec![content("text/event-stream", SchemaKind::Number)]));
    assert_eq!(op.unwrap().response, Some(ResponseKind::EventStream(Type::Number)));
}

#[test]
fn other_response_media_types_are_rejected() {
    let op = extract(&node(vec![], None, vec![content("image/png", SchemaKind::String(vec![]))]));
    assert_eq!(op, unsupported(Construct::MediaType));
}

#[test]
fn response_reference_is_rejected() {
    assert_eq!(
        extract(&node(vec![], None, vec![ContentRef::Reference])),
        unsupported(Construct::ResponseReference)
    );
}

#[test]
fn response_with_two_content_types_is_rejected() {
    let response = ContentRef::Item(vec![
        media("application/json", SchemaKind::Number),
        media("text/plain", SchemaKind::String(vec![])),
    ]);
    assert_eq!(extract(&node(vec![], None, vec![response])), unsupported(Construct::ContentCount));
}

#[test]
fn the_last_response_counts_and_every_response_is_checked() {
    let op = extract(&node(
        vec![],
        None,
        vec![
            content("application/json", SchemaKind::Number),
            content("text/plain", SchemaKind::String(vec![])),
        ],
    ));
    assert_eq!(op.unwrap().response, Some(ResponseKind::Plain));
    let op = extract(&node(
        vec![],
        None,
        vec![
            content("image/png", SchemaKind::Number),
            content("application/json", SchemaKind::Number),
        ],
    ));
    assert_eq!(op, unsupported(Construct::MediaType));
}

#[test]
fn operations_are_read_path_by_path_and_method_by_method() {
    let ok = || node(vec![], None, vec![content("application/json", SchemaKind::Number)]);
    let first = PathItem { post: Some(ok()), get: Some(ok()), ..no_operations() };
    let second = PathItem { patch: Some(ok()), delete: Some(ok()), head: Some(ok()), ..no_operations() };
    let api = api_of(vec![("/b", PathRef::Item(first)), ("/a", PathRef::Item(second))]);
    let found: Vec<(Method, String)> =
        operations(&api).unwrap().into_iter().map(|(m, op)| (m, op.path)).collect();
    assert_eq!(
        found,
        vec![
            (Method::Get, "/b".to_string()),
            (Method::Post, "/b".to_string()),
            (Method::Delete, "/a".to_string()),
            (Method::Head, "/a".to_string()),
            (Method::Patch, "/a".to_string()),
        ]
    );
}

#[test]
fn all_seven_methods_are_read_in_order() {
    let ok = || Some(node(vec![], None, vec![]));
    let all = PathItem {
        parameters: 0,
        delete: ok(),
        get: ok(),
        put: ok(),
        post: ok(),
        head: ok(),
        trace: ok(),
        patch: ok(),
    };
    let api = api_of(vec![("/x", PathRef::Item(all))]);
    let found: Vec<&str> = operations(&api).unwrap().iter().map(|(m, _)| m.name()).collect();
    assert_eq!(found, vec!["DELETE", "GET", "PUT", "POST", "HEAD", "TRACE", "PATCH"]);
}

#[test]
fn path_item_reference_is_rejected() {
    let api = api_of(vec![("/x", PathRef::Reference)]);
    assert_eq!(
        operations(&api).err(),
        Some(Failure {
            error: Error::UnsupportedConstruct(Construct::PathReference),
            place: Place::Path("/x".to_string()),
        })
    );
}

#[test]
fn parameters_on_a_path_item_are_rejected() {
    let api = api_of(vec![("/x", PathRef::Item(PathItem { parameters: 2, ..no_operations() }))]);
    assert_eq!(
        operations(&api).err(),
        Some(Failure {
            error: Error::UnsupportedConstruct(Construct::PathParameters),
            place: Place::Path("/x".to_string()),
        })
    );
}

#[test]
fn the_first_failing_operation_decides() {
    let header = node(vec![parameter(Location::Header, "h", SchemaKind::Number)], None, vec![]);
    let cookie = node(vec![parameter(Location::Cookie, "c", SchemaKind::Number)], None, vec![]);
    let first = PathItem { get: Some(cookie), post: Some(header), ..no_operations() };
    let api = api_of(vec![
        ("/fine", PathRef::Item(no_operations())),
        ("/x", PathRef::Item(first)),
        ("/y", PathRef::Reference),
    ]);
    assert_eq!(
        operations(&api).err(),
        Some(Failure {
            error: Error::UnsupportedConstruct(Construct::CookieParameter),
            place: Place::Operation { path: "/x".to_string(), method: Method::Get },
        })
    );
}
