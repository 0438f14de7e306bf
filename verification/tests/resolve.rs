use abeye::document::{Config, Document, InputApi};
use abeye::error::{Construct, Error};
use abeye::resolve::{
    resolve_schema, resolve_schema_ty, schema_by_name, schema_ty, shallow_schema_ty, ty_by_name,
};
use abeye::schema::{Components, Discriminator, Schema, SchemaKind, SchemaRef};
use abeye::simplify::simplify_ty;
use abeye::types::{Property, Type};

fn plain(kind: SchemaKind) -> Schema {
    Schema { kind, discriminator: None }
}

fn item(kind: SchemaKind) -> SchemaRef {
    SchemaRef::Item(Box::new(plain(kind)))
}

fn named_ref(name: &str) -> SchemaRef {
    SchemaRef::Reference(format!("#/components/schemas/{name}"))
}

fn api_of(schemas: Vec<(&str, SchemaRef)>) -> InputApi {
    let schemas = schemas.into_iter().map(|(name, schema)| (name.to_string(), schema)).collect();
    InputApi::new(
        Document { components: Components { schemas }, paths: vec![] },
        Config { api_prefix: None },
    )
}

fn object(properties: Vec<(&str, SchemaRef)>, required: Vec<&str>) -> SchemaKind {
    SchemaKind::Object {
        properties: properties.into_iter().map(|(n, s)| (n.to_string(), s)).collect(),
        required: required.into_iter().map(|n| n.to_string()).collect(),
    }
}

fn field(name: &str, ty: Type, optional: bool) -> (String, Property) {
    (name.to_string(), Property { ty, optional })
}

fn ident(value: &str) -> Type {
    Type::Ident(value.to_string())
}

fn unsupported(construct: Construct) -> Result<Type, Error> {
    Err(Error::UnsupportedConstruct(construct))
}

#[test]
fn primitives_resolve_to_their_types() {
    let api = api_of(vec![]);
    assert_eq!(schema_ty(&api, &plain(SchemaKind::String(vec![]))), Ok(Type::String));
    assert_eq!(schema_ty(&api, &plain(SchemaKind::Number)), Ok(Type::Number));
    assert_eq!(schema_ty(&api, &plain(SchemaKind::Integer)), Ok(Type::Number));
    assert_eq!(schema_ty(&api, &plain(SchemaKind::Boolean)), Ok(Type::Boolean));
}

#[test]
fn string_enumeration_resolves_to_a_union_of_literals() {
    let api = api_of(vec![]);
    let schema = plain(SchemaKind::String(vec![Some("A".to_string()), Some("B".to_string())]));
    let ty = schema_ty(&api, &schema).unwrap();
    assert_eq!(ty, Type::Or(vec![ident("A"), ident("B")]));
    assert_eq!(ty.constants(), Some(vec!["A".to_string(), "B".to_string()]));
}

#[test]
fn string_enumeration_keeps_declaration_order() {
    let api = api_of(vec![]);
    let schema = plain(SchemaKind::String(vec![Some("b".to_string()), Some("a".to_string())]));
    let ty = schema_ty(&api, &schema).unwrap();
    assert_eq!(ty.constants(), Some(vec!["b".to_string(), "a".to_string()]));
}

#[test]
fn enumeration_with_a_null_value_is_rejected() {
    let api = api_of(vec![]);
    let schema = plain(SchemaKind::String(vec![Some("A".to_string()), None]));
    assert_eq!(schema_ty(&api, &schema), unsupported(Construct::NullEnumValue));
}

#[test]
fn fixed_size_array_resolves_to_a_tuple() {
    let api = api_of(vec![]);
    let schema = plain(SchemaKind::Array {
        items: Some(item(SchemaKind::Number)),
        min_items: Some(3),
        max_items: Some(3),
    });
    assert_eq!(
        schema_ty(&api, &schema),
        Ok(Type::Tuple(vec![Type::Number, Type::Number, Type::Number]))
    );
}

#[test]
fn unbounded_array_resolves_to_an_array() {
    let api = api_of(vec![]);
    let schema = plain(SchemaKind::Array {
        items: Some(item(SchemaKind::Number)),
        min_items: None,
        max_items: None,
    });
    assert_eq!(schema_ty(&api, &schema), Ok(Type::Array(Box::new(Type::Number))));
}

#[test]
fn zero_length_array_resolves_to_the_empty_tuple() {
    let api = api_of(vec![]);
    let schema = plain(SchemaKind::Array {
        items: Some(item(SchemaKind::String(vec![]))),
        min_items: Some(0),
        max_items: Some(0),
    });
    assert_eq!(schema_ty(&api, &schema), Ok(Type::Tuple(vec![])));
}

#[test]
fn other_array_bounds_are_rejected() {
    let api = api_of(vec![]);
    for (min_items, max_items) in [(Some(1), Some(2)), (Some(1), None), (None, Some(2))] {
        let schema =
            plain(SchemaKind::Array { items: Some(item(SchemaKind::Number)), min_items, max_items });
        assert_eq!(schema_ty(&api, &schema), unsupported(Construct::ArrayBounds));
    }
}

#[test]
fn array_without_items_is_rejected() {
    let api = api_of(vec![]);
    let schema = plain(SchemaKind::Array { items: None, min_items: None, max_items: None });
    assert_eq!(schema_ty(&api, &schema), unsupported(Construct::MissingItems));
}

#[test]
fn array_item_failure_comes_before_the_bounds() {
    let api = api_of(vec![]);
    let schema = plain(SchemaKind::Array {
        items: Some(item(SchemaKind::AnyOf)),
        min_items: Some(1),
        max_items: None,
    });
    assert_eq!(schema_ty(&api, &schema), unsupported(Construct::AnyOf));
}

#[test]
fn object_properties_are_ordered_by_name_and_optional_unless_required() {
    let api = api_of(vec![]);
    let schema = plain(object(
        vec![
            ("zeta", item(SchemaKind::Number)),
            ("alpha", item(SchemaKind::String(vec![]))),
            ("mid", named_ref("Other")),
        ],
        vec!["alpha"],
    ));
    assert_eq!(
        schema_ty(&api, &schema),
        Ok(Type::Object(vec![
            field("alpha", Type::String, false),
            field("mid", Type::Reference("Other".to_string()), true),
            field("zeta", Type::Number, true),
        ]))
    );
}

#[test]
fn one_of_and_all_of_resolve_their_members_shallowly() {
    let api = api_of(vec![]);
    let members = || vec![named_ref("Foo"), item(SchemaKind::Boolean)];
    let expected = vec![Type::Reference("Foo".to_string()), Type::Boolean];
    assert_eq!(
        schema_ty(&api, &plain(SchemaKind::OneOf(members()))),
        Ok(Type::Or(expected.clone()))
    );
    assert_eq!(schema_ty(&api, &plain(SchemaKind::AllOf(members()))), Ok(Type::And(expected)));
}

#[test]
fn any_of_not_and_untyped_schemas_are_rejected() {
    let api = api_of(vec![]);
    assert_eq!(schema_ty(&api, &plain(SchemaKind::AnyOf)), unsupported(Construct::AnyOf));
    assert_eq!(schema_ty(&api, &plain(SchemaKind::Not)), unsupported(Construct::Not));
    assert_eq!(schema_ty(&api, &plain(SchemaKind::Any)), unsupported(Construct::Any));
}

#[test]
fn the_first_failing_member_decides() {
    let api = api_of(vec![]);
    let schema =
        plain(SchemaKind::OneOf(vec![item(SchemaKind::Number), item(SchemaKind::Not), item(SchemaKind::Any)]));
    assert_eq!(schema_ty(&api, &schema), unsupported(Construct::Not));
}

#[test]
fn reference_to_a_name_without_underscore_stays_a_reference() {
    // The schema need not even exist.
    let api = api_of(vec![]);
    assert_eq!(
        shallow_schema_ty(&api, &named_ref("Missing")),
        Ok(Type::Reference("Missing".to_string()))
    );
    assert_eq!(
        ty_by_name(&api, "#/components/schemas/Foo".to_string()),
        Ok(Type::Reference("Foo".to_string()))
    );
}

#[test]
fn reference_to_a_name_with_underscore_is_inlined() {
    let api = api_of(vec![("Inner_Part", item(object(vec![("n", item(SchemaKind::Number))], vec!["n"])))]);
    assert_eq!(
        shallow_schema_ty(&api, &named_ref("Inner_Part")),
        Ok(Type::Object(vec![field("n", Type::Number, false)]))
    );
}

#[test]
fn reference_to_a_missing_name_with_underscore_is_unresolved() {
    let api = api_of(vec![("Other", item(SchemaKind::Number))]);
    assert_eq!(shallow_schema_ty(&api, &named_ref("Not_There")), Err(Error::UnresolvedReference));
}

#[test]
fn reference_outside_the_schema_table_is_rejected() {
    let api = api_of(vec![("Foo", item(SchemaKind::Number))]);
    assert_eq!(
        shallow_schema_ty(&api, &SchemaRef::Reference("Foo".to_string())),
        unsupported(Construct::ForeignReference)
    );
    assert_eq!(
        shallow_schema_ty(&api, &SchemaRef::Reference("#/components/parameters/Foo".to_string())),
        unsupported(Construct::ForeignReference)
    );
}

#[test]
fn schemas_inlined_into_one_another_are_rejected() {
    let api = api_of(vec![
        ("A_a", item(SchemaKind::OneOf(vec![named_ref("B_b")]))),
        ("B_b", item(SchemaKind::AllOf(vec![named_ref("A_a")]))),
    ]);
    assert_eq!(
        shallow_schema_ty(&api, &named_ref("A_a")),
        unsupported(Construct::CyclicReference)
    );
}

#[test]
fn a_chain_of_inlined_schemas_resolves() {
    let api = api_of(vec![
        ("A_a", item(SchemaKind::OneOf(vec![named_ref("B_b")]))),
        ("B_b", item(SchemaKind::AllOf(vec![named_ref("C_c")]))),
        ("C_c", item(SchemaKind::Boolean)),
    ]);
    assert_eq!(
        shallow_schema_ty(&api, &named_ref("A_a")),
        Ok(Type::Or(vec![Type::And(vec![Type::Boolean])]))
    );
}

#[test]
fn schema_by_name_strips_the_prefix() {
    let api = api_of(vec![("Foo", item(SchemaKind::Number)), ("Bar", item(SchemaKind::Boolean))]);
    assert_eq!(schema_by_name(&api, "Bar"), Ok(&plain(SchemaKind::Boolean)));
    assert_eq!(schema_by_name(&api, "#/components/schemas/Foo"), Ok(&plain(SchemaKind::Number)));
    assert_eq!(
        schema_by_name(&api, "#/components/schemas/#/components/schemas/Foo"),
        Ok(&plain(SchemaKind::Number))
    );
    assert_eq!(schema_by_name(&api, "Baz"), Err(Error::UnresolvedReference));
    assert_eq!(schema_by_name(&api, ""), Err(Error::UnresolvedReference));
}

#[test]
fn named_schema_that_is_a_reference_is_rejected() {
    let api = api_of(vec![("Alias", named_ref("Foo")), ("Foo", item(SchemaKind::Number))]);
    assert_eq!(
        schema_by_name(&api, "Alias"),
        Err(Error::UnsupportedConstruct(Construct::ReferenceToReference))
    );
}

#[test]
fn resolve_schema_follows_a_reference_or_hands_back_the_item() {
    let api = api_of(vec![("Foo", item(SchemaKind::Number))]);
    let inline = item(SchemaKind::Boolean);
    assert_eq!(resolve_schema(&api, &inline), Ok(&plain(SchemaKind::Boolean)));
    assert_eq!(resolve_schema(&api, &named_ref("Foo")), Ok(&plain(SchemaKind::Number)));
    assert_eq!(resolve_schema(&api, &named_ref("Nope")), Err(Error::UnresolvedReference));
    assert_eq!(resolve_schema_ty(&api, &named_ref("Foo")), Ok(Type::Number));
    assert_eq!(resolve_schema_ty(&api, &inline), Ok(Type::Boolean));
    assert_eq!(resolve_schema_ty(&api, &named_ref("Nope")), Err(Error::UnresolvedReference));
}

fn discriminated(mapping: Vec<(&str, &str)>, extensions: usize) -> Schema {
    Schema {
        kind: object(vec![("kind", item(SchemaKind::String(vec![])))], vec!["kind"]),
        discriminator: Some(Discriminator {
            property_name: "kind".to_string(),
            mapping: mapping.into_iter().map(|(t, n)| (t.to_string(), n.to_string())).collect(),
            extensions,
        }),
    }
}

fn pets() -> InputApi {
    api_of(vec![
        (
            "Foo",
            item(object(
                vec![("kind", item(SchemaKind::String(vec![]))), ("age", item(SchemaKind::Integer))],
                vec!["kind", "age"],
            )),
        ),
        (
            "Bar",
            item(object(
                vec![("kind", item(SchemaKind::String(vec![]))), ("wings", item(SchemaKind::Boolean))],
                vec!["kind"],
            )),
        ),
    ])
}

#[test]
fn discriminator_resolves_to_a_tagged_union() {
    let api = pets();
    let schema = discriminated(vec![("a", "Foo"), ("b", "#/components/schemas/Bar")], 0);
    let foo = Type::Object(vec![field("age", Type::Number, false), field("kind", Type::String, false)]);
    let bar = Type::Object(vec![field("kind", Type::String, false), field("wings", Type::Boolean, true)]);
    let marker = |tag: &str| Type::Object(vec![field("kind", ident(tag), false)]);
    let ty = schema_ty(&api, &schema).unwrap();
    assert_eq!(
        ty,
        Type::Or(vec![Type::And(vec![marker("a"), foo]), Type::And(vec![marker("b"), bar])])
    );
    assert_eq!(
        simplify_ty(&ty),
        Type::Or(vec![
            Type::Object(vec![field("age", Type::Number, false), field("kind", ident("a"), false)]),
            Type::Object(vec![field("kind", ident("b"), false), field("wings", Type::Boolean, true)]),
        ])
    );
}

#[test]
fn discriminator_with_fewer_than_two_entries_is_rejected() {
    let api = pets();
    assert_eq!(
        schema_ty(&api, &discriminated(vec![], 0)),
        unsupported(Construct::DiscriminatorMapping)
    );
    assert_eq!(
        schema_ty(&api, &discriminated(vec![("a", "Foo")], 0)),
        unsupported(Construct::DiscriminatorMapping)
    );
}

#[test]
fn discriminator_with_extensions_is_rejected() {
    let api = pets();
    assert_eq!(
        schema_ty(&api, &discriminated(vec![("a", "Foo"), ("b", "Bar")], 1)),
        unsupported(Construct::DiscriminatorExtensions)
    );
}

#[test]
fn discriminator_naming_a_missing_schema_is_unresolved() {
    let api = pets();
    assert_eq!(
        schema_ty(&api, &discriminated(vec![("a", "Foo"), ("b", "Nope")], 0)),
        Err(Error::UnresolvedReference)
    );
}

#[test]
fn discriminator_that_maps_to_its_own_schema_is_cyclic() {
    let api = InputApi::new(
        Document {
            components: Components {
                schemas: vec![
                    ("Pet".to_string(), SchemaRef::Item(Box::new(discriminated(vec![("a", "Pet"), ("b", "Pet")], 0)))),
                ],
            },
            paths: vec![],
        },
        Config { api_prefix: None },
    );
    let pet = schema_by_name(&api, "Pet").unwrap();
    assert_eq!(schema_ty(&api, pet), unsupported(Construct::CyclicReference));
}

#[test]
fn a_schema_inlined_in_many_places_has_the_same_type_everywhere() {
    let api = api_of(vec![
        ("Leaf_x", item(object(vec![("v", item(SchemaKind::Number))], vec![]))),
        ("Mid_x", item(SchemaKind::AllOf(vec![named_ref("Leaf_x"), named_ref("Leaf_x")]))),
        (
            "Top",
            item(SchemaKind::OneOf(vec![named_ref("Mid_x"), named_ref("Leaf_x"), named_ref("Mid_x")])),
        ),
    ]);
    let leaf = Type::Object(vec![field("v", Type::Number, true)]);
    let mid = Type::And(vec![leaf.clone(), leaf.clone()]);
    let top = schema_by_name(&api, "Top").unwrap();
    assert_eq!(schema_ty(&api, top), Ok(Type::Or(vec![mid.clone(), leaf, mid])));
}

#[test]
fn a_schema_first_inlined_near_the_limit_is_still_cyclic_below_it() {
    // `A_a` inlines `B_b` and then itself: the second member runs out of
    // depth although `B_b` was resolved before.
    let api = api_of(vec![
        ("A_a", item(SchemaKind::OneOf(vec![named_ref("B_b"), named_ref("A_a")]))),
        ("B_b", item(SchemaKind::Boolean)),
    ]);
    assert_eq!(
        shallow_schema_ty(&api, &named_ref("A_a")),
        unsupported(Construct::CyclicReference)
    );
}

#[test]
fn inlining_as_deep_as_there_are_schemas_resolves() {
    let api = api_of(vec![
        ("A_a", item(SchemaKind::OneOf(vec![named_ref("C_c"), named_ref("B_b")]))),
        ("B_b", item(SchemaKind::OneOf(vec![named_ref("C_c")]))),
        ("C_c", item(SchemaKind::Number)),
    ]);
    assert_eq!(
        shallow_schema_ty(&api, &named_ref("A_a")),
        Ok(Type::Or(vec![Type::Number, Type::Or(vec![Type::Number])]))
    );
}
