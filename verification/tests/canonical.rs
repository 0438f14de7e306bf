use abeye::canon::insert_member_into;
use abeye::fields::put_field_into;
use abeye::order::compare_types;
use abeye::simplify::simplify_ty;
use abeye::text::{compare_names, has_char, has_name, same_name, strip_prefix};
use abeye::types::{Property, Type};

fn ident(value: &str) -> Type {
    Type::Ident(value.to_string())
}

fn reference(name: &str) -> Type {
    Type::Reference(name.to_string())
}

fn field(name: &str, ty: Type) -> (String, Property) {
    (name.to_string(), Property { ty, optional: false })
}

fn optional_field(name: &str, ty: Type) -> (String, Property) {
    (name.to_string(), Property { ty, optional: true })
}

#[test]
fn simplify_is_idempotent_on_a_nested_type() {
    let ty = Type::Or(vec![
        Type::And(vec![
            Type::Object(vec![field("kind", Type::String), field("size", Type::Number)]),
            Type::Object(vec![field("kind", ident("a"))]),
        ]),
        Type::Tuple(vec![Type::Or(vec![Type::Boolean, Type::Number, Type::Boolean])]),
        Type::Array(Box::new(Type::And(vec![reference("B"), reference("A"), reference("B")]))),
        Type::String,
        Type::String,
    ]);
    let once = simplify_ty(&ty);
    let twice = simplify_ty(&once);
    assert_eq!(once, twice);
}

#[test]
fn union_members_are_deduplicated() {
    let a = reference("A");
    let b = Type::Number;
    let r = simplify_ty(&Type::Or(vec![a.clone(), a.clone(), b.clone()]));
    assert_eq!(r, Type::Or(vec![a, b]));
}

#[test]
fn union_does_not_depend_on_member_order() {
    let a = Type::Array(Box::new(Type::String));
    let b = ident("x");
    let ab = simplify_ty(&Type::Or(vec![a.clone(), b.clone()]));
    let ba = simplify_ty(&Type::Or(vec![b.clone(), a.clone()]));
    assert_eq!(ab, ba);
    assert_eq!(ab, Type::Or(vec![a, b]));
}

#[test]
fn union_members_come_in_ascending_order() {
    let members = vec![
        Type::Boolean,
        Type::String,
        ident("b"),
        ident("a"),
        Type::Number,
        Type::And(vec![reference("Z"), Type::Number]),
        Type::Or(vec![]),
        Type::Tuple(vec![Type::Number, Type::Number]),
        Type::Tuple(vec![Type::Number]),
        Type::Array(Box::new(Type::Number)),
        Type::Object(vec![]),
        reference("B"),
        reference("A"),
    ];
    let r = simplify_ty(&Type::Or(members));
    assert_eq!(
        r,
        Type::Or(vec![
            reference("A"),
            reference("B"),
            Type::Object(vec![]),
            Type::Array(Box::new(Type::Number)),
            Type::Tuple(vec![Type::Number]),
            Type::Tuple(vec![Type::Number, Type::Number]),
            Type::Or(vec![]),
            Type::And(vec![reference("Z"), Type::Number]),
            Type::Number,
            ident("a"),
            ident("b"),
            Type::String,
            Type::Boolean,
        ])
    );
}

#[test]
fn members_equal_after_simplification_collapse() {
    let one = Type::Or(vec![Type::Number]);
    let two = Type::Or(vec![Type::Number, Type::Number]);
    let r = simplify_ty(&Type::Or(vec![one, two]));
    assert_eq!(r, Type::Or(vec![Type::Or(vec![Type::Number])]));
}

#[test]
fn intersection_of_objects_merges_and_keeps_the_literal_tag() {
    let first = Type::Object(vec![field("a", ident("x"))]);
    let second = Type::Object(vec![field("a", Type::String), field("b", Type::Number)]);
    let merged = simplify_ty(&Type::And(vec![first, second]));
    assert_eq!(merged, Type::Object(vec![field("a", ident("x")), field("b", Type::Number)]));
}

#[test]
fn intersection_merge_takes_the_later_member_on_other_conflicts() {
    // In the order of types an object with a `Number` field comes before
    // one with a `Boolean` field of the same name.
    let first = Type::Object(vec![field("a", Type::Number), field("c", Type::String)]);
    let second = Type::Object(vec![optional_field("a", Type::Boolean)]);
    let merged = simplify_ty(&Type::And(vec![second, first]));
    assert_eq!(
        merged,
        Type::Object(vec![optional_field("a", Type::Boolean), field("c", Type::String)])
    );
}

#[test]
fn intersection_with_a_member_that_is_no_object_stays() {
    let object = Type::Object(vec![field("a", Type::Number)]);
    let r = simplify_ty(&Type::And(vec![object.clone(), reference("Base"), object.clone()]));
    assert_eq!(r, Type::And(vec![reference("Base"), object]));
}

#[test]
fn empty_intersection_becomes_the_empty_object() {
    assert_eq!(simplify_ty(&Type::And(vec![])), Type::Object(vec![]));
}

#[test]
fn object_fields_keep_order_and_optionality() {
    let ty = Type::Object(vec![
        optional_field("a", Type::Or(vec![Type::String, Type::Number])),
        field("b", Type::Boolean),
    ]);
    assert_eq!(
        simplify_ty(&ty),
        Type::Object(vec![
            optional_field("a", Type::Or(vec![Type::Number, Type::String])),
            field("b", Type::Boolean),
        ])
    );
}

#[test]
fn references_and_primitives_are_left_alone() {
    for ty in [reference("Foo"), Type::Number, Type::String, Type::Boolean, ident("v")] {
        assert_eq!(simplify_ty(&ty), ty);
    }
}

#[test]
fn tuple_and_array_are_simplified_pointwise() {
    let dup = Type::Or(vec![Type::String, Type::String]);
    let one = Type::Or(vec![Type::String]);
    assert_eq!(
        simplify_ty(&Type::Tuple(vec![dup.clone(), Type::Number, dup.clone()])),
        Type::Tuple(vec![one.clone(), Type::Number, one.clone()])
    );
    assert_eq!(simplify_ty(&Type::Array(Box::new(dup))), Type::Array(Box::new(one)));
}

#[test]
fn compare_types_orders_by_kind_then_content() {
    assert_eq!(compare_types(&Type::Number, &Type::Number), 0);
    assert_eq!(compare_types(&reference("A"), &Type::Number), -1);
    assert_eq!(compare_types(&Type::Boolean, &Type::String), 1);
    assert_eq!(compare_types(&ident("a"), &ident("b")), -1);
    assert_eq!(compare_types(&ident("b"), &ident("a")), 1);
    assert_eq!(
        compare_types(&Type::Tuple(vec![Type::Number]), &Type::Tuple(vec![Type::Number, Type::Number])),
        -1
    );
    assert_eq!(
        compare_types(
            &Type::Object(vec![field("a", Type::Number)]),
            &Type::Object(vec![optional_field("a", Type::Number)])
        ),
        -1
    );
    assert_eq!(
        compare_types(
            &Type::Array(Box::new(Type::String)),
            &Type::Array(Box::new(Type::Number))
        ),
        1
    );
}

#[test]
fn compare_names_is_bytewise() {
    assert_eq!(compare_names("", ""), 0);
    assert_eq!(compare_names("", "a"), -1);
    assert_eq!(compare_names("ab", "a"), 1);
    assert_eq!(compare_names("Z", "a"), -1);
    assert_eq!(compare_names("é", "z"), 1);
    assert_eq!(compare_names("kind", "kind"), 0);
}

#[test]
fn insert_member_keeps_the_list_sorted_and_free_of_duplicates() {
    let mut members: Vec<Type> = Vec::new();
    insert_member_into(&mut members, Type::String);
    insert_member_into(&mut members, Type::Number);
    insert_member_into(&mut members, Type::String);
    insert_member_into(&mut members, reference("A"));
    assert_eq!(members, vec![reference("A"), Type::Number, Type::String]);
}

#[test]
fn put_field_inserts_replaces_and_settles() {
    let mut fields: Vec<(String, Property)> = Vec::new();
    put_field_into(&mut fields, "b".to_string(), Property { ty: Type::Number, optional: false });
    put_field_into(&mut fields, "a".to_string(), Property { ty: ident("t"), optional: true });
    put_field_into(&mut fields, "c".to_string(), Property { ty: Type::String, optional: false });
    assert_eq!(
        fields,
        vec![optional_field("a", ident("t")), field("b", Type::Number), field("c", Type::String)]
    );
    // a later value replaces the earlier one
    put_field_into(&mut fields, "b".to_string(), Property { ty: Type::Boolean, optional: true });
    // but a literal stays where plain `String` arrives
    put_field_into(&mut fields, "a".to_string(), Property { ty: Type::String, optional: false });
    // and a literal is replaced by anything else
    put_field_into(&mut fields, "c".to_string(), Property { ty: ident("z"), optional: false });
    assert_eq!(
        fields,
        vec![optional_field("a", ident("t")), optional_field("b", Type::Boolean), field("c", ident("z"))]
    );
    put_field_into(&mut fields, "a".to_string(), Property { ty: Type::Number, optional: false });
    assert_eq!(fields[0], field("a", Type::Number));
}

#[test]
fn constants_of_a_union_of_literals() {
    let ty = Type::Or(vec![ident("B"), ident("A")]);
    assert_eq!(ty.constants(), Some(vec!["B".to_string(), "A".to_string()]));
    assert_eq!(Type::Or(vec![]).constants(), Some(vec![]));
    assert_eq!(Type::Or(vec![ident("A"), Type::String]).constants(), None);
    assert_eq!(Type::And(vec![ident("A")]).constants(), None);
    assert_eq!(ident("A").constants(), None);
}

#[test]
fn clone_copies_the_whole_type() {
    let ty = Type::Object(vec![
        optional_field("a", Type::Tuple(vec![ident("x"), Type::Array(Box::new(reference("R")))])),
        field("b", Type::And(vec![Type::Or(vec![Type::Boolean]), Type::Number])),
    ]);
    assert_eq!(ty.clone(), ty);
    assert_eq!(Property::required(Type::String), Property { ty: Type::String, optional: false });
}

#[test]
fn text_helpers() {
    assert_eq!(strip_prefix("#/components/schemas/Foo", "#/components/schemas/"), Some("Foo"));
    assert_eq!(strip_prefix("Foo", "#/components/schemas/"), None);
    assert_eq!(strip_prefix("é-ü", "é"), Some("-ü"));
    assert_eq!(strip_prefix("ab", "abc"), None);
    assert_eq!(strip_prefix("ab", ""), Some("ab"));
    assert!(has_char("a_b", '_'));
    assert!(!has_char("ab", '_'));
    assert!(has_name(&vec!["a".to_string(), "b".to_string()], "b"));
    assert!(!has_name(&vec!["a".to_string()], "b"));
    assert!(same_name("x", "x"));
    assert!(!same_name("x", "y"));
}
