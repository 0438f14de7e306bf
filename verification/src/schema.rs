//! Schemas as a document holds them, and their resolution into types.

use vstd::prelude::*;
use crate::error::{Construct, Error};
use crate::fields::{
    fields_well_formed, lemma_put_field_well_formed, names_sorted, put_field, well_formed,
};
use crate::text::without_prefix;
use crate::types::{FieldModel, PropertyModel, Type, TypeModel};

verus! {

broadcast use {vstd::seq::group_seq_axioms, vstd::std_specs::vec::group_vec_axioms};

/// A schema, or the name of one.
#[derive(Debug, PartialEq, Eq)]
pub enum SchemaRef {
    Reference(String),
    Item(Box<Schema>),
}

/// One schema of a document.
#[derive(Debug, PartialEq, Eq)]
pub struct Schema {
    pub kind: SchemaKind,
    pub discriminator: Option<Discriminator>,
}

/// What a schema describes.
#[derive(Debug, PartialEq, Eq)]
pub enum SchemaKind {
    /// A string; the vector holds its enumeration, a `None` for a value
    /// that is no string.
    String(Vec<Option<String>>),
    Number,
    Integer,
    Boolean,
    Object { properties: Vec<(String, SchemaRef)>, required: Vec<String> },
    Array { items: Option<SchemaRef>, min_items: Option<usize>, max_items: Option<usize> },
    OneOf(Vec<SchemaRef>),
    AllOf(Vec<SchemaRef>),
    AnyOf,
    Not,
    Any,
}

/// The tags of a polymorphic schema and the schemas they stand for.
#[derive(Debug, PartialEq, Eq)]
pub struct Discriminator {
    pub property_name: String,
    /// Tag and schema name, in the order of the document.
    pub mapping: Vec<(String, String)>,
    /// The number of extension fields.
    pub extensions: usize,
}

/// The named schemas of a document, in its order.
#[derive(Debug, PartialEq, Eq)]
pub struct Components {
    pub schemas: Vec<(String, SchemaRef)>,
}

/// What references to named schemas begin with.
pub open spec fn schema_prefix() -> Seq<char> {
    "#/components/schemas/"@
}

/// A reference without the prefixes it begins with.
pub open spec fn bare_name(reference: Seq<char>) -> Seq<char>
    decreases reference.len(),
{
    match without_prefix(reference, schema_prefix()) {
        Some(rest) => if rest.len() < reference.len() {
            bare_name(rest)
        } else {
            reference
        },
        None => reference,
    }
}

/// The position of the first schema called `name` from position `i` on.
pub open spec fn position_from(components: &Components, name: Seq<char>, i: int) -> Option<int>
    decreases components.schemas.len() - i,
{
    if i < 0 || i >= components.schemas.len() {
        None
    } else if components.schemas[i].0@ == name {
        Some(i)
    } else {
        position_from(components, name, i + 1)
    }
}

/// The schema that a reference names.
pub open spec fn named(components: &Components, reference: Seq<char>) -> Result<Schema, Error> {
    match position_from(components, bare_name(reference), 0) {
        None => Err(Error::UnresolvedReference),
        Some(i) => match components.schemas[i].1 {
            SchemaRef::Reference(_) => Err(
                Error::UnsupportedConstruct(Construct::ReferenceToReference),
            ),
            SchemaRef::Item(schema) => Ok(*schema),
        },
    }
}

/// The type of a schema. A schema that is reached by its name and inlined
/// takes one from `depth`; where none is left, the schemas are taken to
/// be inlined into one another without end.
pub open spec fn resolve_deep(components: &Components, schema: &Schema, depth: nat) -> Result<
    TypeModel,
    Error,
>
    decreases depth, schema, mapping_len(schema) + 1,
{
    match &schema.kind {
        SchemaKind::String(enumeration) => if enumeration.len() == 0 {
            Ok(TypeModel::String)
        } else {
            match literals(enumeration@, enumeration.len() as nat) {
                Ok(members) => Ok(TypeModel::Or(members)),
                Err(e) => Err(e),
            }
        },
        SchemaKind::Number | SchemaKind::Integer => Ok(TypeModel::Number),
        SchemaKind::Boolean => Ok(TypeModel::Boolean),
        SchemaKind::Object { properties, required } => match resolve_properties(
            components,
            properties,
            required,
            properties.len() as nat,
            depth,
        ) {
            Err(e) => Err(e),
            Ok(fields) => match schema.discriminator {
                None => Ok(TypeModel::Object(fields)),
                Some(d) => if d.extensions != 0 {
                    Err(Error::UnsupportedConstruct(Construct::DiscriminatorExtensions))
                } else if d.mapping.len() < 2 {
                    Err(Error::UnsupportedConstruct(Construct::DiscriminatorMapping))
                } else {
                    match resolve_variants(components, schema, d.mapping.len() as nat, depth) {
                        Ok(members) => Ok(TypeModel::Or(members)),
                        Err(e) => Err(e),
                    }
                },
            },
        },
        SchemaKind::Array { items, min_items, max_items } => match items {
            None => Err(Error::UnsupportedConstruct(Construct::MissingItems)),
            Some(item) => match resolve_shallow(components, item, depth) {
                Err(e) => Err(e),
                Ok(element) => match (min_items, max_items) {
                    (None, None) => Ok(TypeModel::Array(Box::new(element))),
                    (Some(min), Some(max)) => if min == max {
                        Ok(TypeModel::Tuple(Seq::new(*min as nat, |i: int| element)))
                    } else {
                        Err(Error::UnsupportedConstruct(Construct::ArrayBounds))
                    },
                    _ => Err(Error::UnsupportedConstruct(Construct::ArrayBounds)),
                },
            },
        },
        SchemaKind::OneOf(items) => match resolve_each(
            components,
            items,
            items.len() as nat,
            depth,
        ) {
            Ok(members) => Ok(TypeModel::Or(members)),
            Err(e) => Err(e),
        },
        SchemaKind::AllOf(items) => match resolve_each(
            components,
            items,
            items.len() as nat,
            depth,
        ) {
            Ok(members) => Ok(TypeModel::And(members)),
            Err(e) => Err(e),
        },
        SchemaKind::AnyOf => Err(Error::UnsupportedConstruct(Construct::AnyOf)),
        SchemaKind::Not => Err(Error::UnsupportedConstruct(Construct::Not)),
        SchemaKind::Any => Err(Error::UnsupportedConstruct(Construct::Any)),
    }
}

/// The literal types of the `n` first values of an enumeration.
pub open spec fn literals(enumeration: Seq<Option<String>>, n: nat) -> Result<Seq<TypeModel>, Error>
    decreases n,
{
    if n == 0 || n > enumeration.len() {
        Ok(Seq::empty())
    } else {
        match literals(enumeration, (n - 1) as nat) {
            Err(e) => Err(e),
            Ok(members) => match enumeration[n - 1] {
                None => Err(Error::UnsupportedConstruct(Construct::NullEnumValue)),
                Some(value) => Ok(members.push(TypeModel::Ident(value@))),
            },
        }
    }
}

/// The type that stands for a schema where it is used: the name of a
/// named schema whose name has no underscore, else the type of the schema
/// itself.
pub open spec fn resolve_shallow(components: &Components, schema: &SchemaRef, depth: nat) -> Result<
    TypeModel,
    Error,
>
    decreases depth, schema, 0nat,
{
    match schema {
        SchemaRef::Reference(reference) => match without_prefix(reference@, schema_prefix()) {
            None => Err(Error::UnsupportedConstruct(Construct::ForeignReference)),
            Some(name) => if name.contains('_') {
                match named(components, reference@) {
                    Err(e) => Err(e),
                    Ok(target) => if depth == 0 {
                        Err(Error::UnsupportedConstruct(Construct::CyclicReference))
                    } else {
                        resolve_deep(components, &target, (depth - 1) as nat)
                    },
                }
            } else {
                Ok(TypeModel::Reference(name))
            },
        },
        SchemaRef::Item(item) => resolve_deep(components, item, depth),
    }
}

/// The types that stand for the `n` first schemas of a list.
pub open spec fn resolve_each(
    components: &Components,
    items: &Vec<SchemaRef>,
    n: nat,
    depth: nat,
) -> Result<
    Seq<TypeModel>,
    Error,
>
    decreases depth, items, n,
{
    if n == 0 || n > items.len() {
        Ok(Seq::empty())
    } else {
        match resolve_each(components, items, (n - 1) as nat, depth) {
            Err(e) => Err(e),
            Ok(members) => match resolve_shallow(components, &items[n - 1], depth) {
                Err(e) => Err(e),
                Ok(t) => Ok(members.push(t)),
            },
        }
    }
}

/// The fields of an object from the `n` first of its properties; a
/// property that is not required is optional.
pub open spec fn resolve_properties(
    components: &Components,
    properties: &Vec<(String, SchemaRef)>,
    required: &Vec<String>,
    n: nat,
    depth: nat,
) -> Result<Seq<FieldModel>, Error>
    decreases depth, properties, n,
{
    if n == 0 || n > properties.len() {
        Ok(Seq::empty())
    } else {
        match resolve_properties(components, properties, required, (n - 1) as nat, depth) {
            Err(e) => Err(e),
            Ok(fields) => match resolve_shallow(components, &properties[n - 1].1, depth) {
                Err(e) => Err(e),
                Ok(ty) => Ok(
                    put_field(
                        fields,
                        properties[n - 1].0@,
                        PropertyModel {
                            ty,
                            optional: !is_required(required, properties[n - 1].0@),
                        },
                    ),
                ),
            },
        }
    }
}

/// Whether `name` is among the required names.
pub open spec fn is_required(required: &Vec<String>, name: Seq<char>) -> bool {
    exists|i: int| 0 <= i < required.len() && required[i]@ == name
}

/// One member of a tagged union: what the tag's schema describes, and the
/// discriminating property with the tag as its literal type.
pub open spec fn variant(property_name: Seq<char>, tag: Seq<char>, ty: TypeModel) -> TypeModel {
    TypeModel::And(
        seq![
            TypeModel::Object(
                seq![(property_name, PropertyModel { ty: TypeModel::Ident(tag), optional: false })],
            ),
            ty,
        ],
    )
}

/// The number of entries in the mapping of a schema's discriminator.
pub open spec fn mapping_len(schema: &Schema) -> nat {
    match schema.discriminator {
        Some(d) => d.mapping.len() as nat,
        None => 0,
    }
}

/// The members of a tagged union from the `n` first entries of the mapping
/// of the schema's discriminator.
pub open spec fn resolve_variants(
    components: &Components,
    schema: &Schema,
    n: nat,
    depth: nat,
) -> Result<
    Seq<TypeModel>,
    Error,
>
    decreases depth, schema, n,
{
    match schema.discriminator {
        None => Ok(Seq::empty()),
        Some(d) => if n == 0 || n > d.mapping.len() {
            Ok(Seq::empty())
        } else {
            match resolve_variants(components, schema, (n - 1) as nat, depth) {
                Err(e) => Err(e),
                Ok(members) => match named(components, d.mapping[n - 1].1@) {
                    Err(e) => Err(e),
                    Ok(target) => if depth == 0 {
                        Err(Error::UnsupportedConstruct(Construct::CyclicReference))
                    } else {
                        match resolve_deep(components, &target, (depth - 1) as nat) {
                            Err(e) => Err(e),
                            Ok(ty) => Ok(
                                members.push(variant(d.property_name@, d.mapping[n - 1].0@, ty)),
                            ),
                        }
                    },
                },
            }
        },
    }
}

/// A result with the type in it taken by its model.
pub open spec fn type_result(r: Result<Type, Error>) -> Result<TypeModel, Error> {
    match r {
        Ok(t) => Ok(t@),
        Err(e) => Err(e),
    }
}

/// The type of a schema that is inlined where it is used, whatever its
/// name.
pub open spec fn resolve_inlined(components: &Components, schema: &SchemaRef) -> Result<
    TypeModel,
    Error,
> {
    let depth = components.schemas.len() as nat;
    match schema {
        SchemaRef::Reference(reference) => match named(components, reference@) {
            Err(e) => Err(e),
            Ok(target) => if depth == 0 {
                Err(Error::UnsupportedConstruct(Construct::CyclicReference))
            } else {
                resolve_deep(components, &target, (depth - 1) as nat)
            },
        },
        SchemaRef::Item(item) => resolve_deep(components, item, depth),
    }
}

/// Every type of a sequence is well-formed.
pub open spec fn all_well_formed(s: Seq<TypeModel>) -> bool {
    forall|i: int| 0 <= i < s.len() ==> well_formed(#[trigger] s[i])
}

/// The type of a schema is well-formed.
pub proof fn lemma_resolve_deep_well_formed(components: &Components, schema: &Schema, depth: nat)
    ensures
        resolve_deep(components, schema, depth) matches Ok(t) ==> well_formed(t),
    decreases depth, schema, mapping_len(schema) + 1,
{
    match &schema.kind {
        SchemaKind::String(enumeration) => {
            lemma_literals_well_formed(enumeration@, enumeration.len() as nat);
            if let Ok(members) = literals(enumeration@, enumeration.len() as nat) {
                assert(all_well_formed(members) ==> well_formed(TypeModel::Or(members)));
            }
        },
        SchemaKind::Object { properties, required } => {
            lemma_properties_well_formed(
                components,
                properties,
                required,
                properties.len() as nat,
                depth,
            );
            if let Ok(fields) = resolve_properties(
                components,
                properties,
                required,
                properties.len() as nat,
                depth,
            ) {
                assert(well_formed(TypeModel::Object(fields))) by {
                    assert forall|i: int| 0 <= i < fields.len() implies well_formed(
                        #[trigger] fields[i].1.ty,
                    ) by {
                        assert((|t: TypeModel| well_formed(t))(fields[i].1.ty));
                    }
                }
            }
            if schema.discriminator is Some {
                lemma_variants_well_formed(components, schema, mapping_len(schema), depth);
                if let Ok(members) = resolve_variants(
                    components,
                    schema,
                    mapping_len(schema),
                    depth,
                ) {
                    assert(all_well_formed(members) ==> well_formed(TypeModel::Or(members)));
                }
            }
        },
        SchemaKind::Array { items, min_items, max_items } => {
            if let Some(item) = items {
                lemma_resolve_shallow_well_formed(components, item, depth);
                if let Ok(element) = resolve_shallow(components, item, depth) {
                    assert(well_formed(TypeModel::Array(Box::new(element))));
                    if let Some(min) = min_items {
                        assert(well_formed(
                            TypeModel::Tuple(Seq::new(*min as nat, |i: int| element)),
                        ));
                    }
                }
            }
        },
        SchemaKind::OneOf(items) => {
            lemma_each_well_formed(components, items, items.len() as nat, depth);
            if let Ok(members) = resolve_each(components, items, items.len() as nat, depth) {
                assert(all_well_formed(members) ==> well_formed(TypeModel::Or(members)));
            }
        },
        SchemaKind::AllOf(items) => {
            lemma_each_well_formed(components, items, items.len() as nat, depth);
            if let Ok(members) = resolve_each(components, items, items.len() as nat, depth) {
                assert(all_well_formed(members) ==> well_formed(TypeModel::And(members)));
            }
        },
        _ => {},
    }
}

proof fn lemma_literals_well_formed(enumeration: Seq<Option<String>>, n: nat)
    ensures
        literals(enumeration, n) matches Ok(members) ==> all_well_formed(members),
    decreases n,
{
    if !(n == 0 || n > enumeration.len()) {
        lemma_literals_well_formed(enumeration, (n - 1) as nat);
    }
}

/// The type that stands for a schema where it is used is well-formed.
pub proof fn lemma_resolve_shallow_well_formed(
    components: &Components,
    schema: &SchemaRef,
    depth: nat,
)
    ensures
        resolve_shallow(components, schema, depth) matches Ok(t) ==> well_formed(t),
    decreases depth, schema, 0nat,
{
    match schema {
        SchemaRef::Reference(reference) => {
            if let Ok(target) = named(components, reference@) {
                if depth > 0 {
                    lemma_resolve_deep_well_formed(components, &target, (depth - 1) as nat);
                }
            }
        },
        SchemaRef::Item(item) => {
            lemma_resolve_deep_well_formed(components, item, depth);
        },
    }
}

proof fn lemma_each_well_formed(components: &Components, items: &Vec<SchemaRef>, n: nat, depth: nat)
    ensures
        resolve_each(components, items, n, depth) matches Ok(members) ==> all_well_formed(members),
    decreases depth, items, n,
{
    if !(n == 0 || n > items.len()) {
        lemma_each_well_formed(components, items, (n - 1) as nat, depth);
        lemma_resolve_shallow_well_formed(components, &items[n - 1], depth);
    }
}

proof fn lemma_properties_well_formed(
    components: &Components,
    properties: &Vec<(String, SchemaRef)>,
    required: &Vec<String>,
    n: nat,
    depth: nat,
)
    ensures
        resolve_properties(components, properties, required, n, depth) matches Ok(fields)
            ==> fields_well_formed(fields),
    decreases depth, properties, n,
{
    if !(n == 0 || n > properties.len()) {
        lemma_properties_well_formed(components, properties, required, (n - 1) as nat, depth);
        lemma_resolve_shallow_well_formed(components, &properties[n - 1].1, depth);
        if let Ok(fields) = resolve_properties(
            components,
            properties,
            required,
            (n - 1) as nat,
            depth,
        ) {
            if let Ok(ty) = resolve_shallow(components, &properties[n - 1].1, depth) {
                lemma_put_field_well_formed(
                    fields,
                    properties[n - 1].0@,
                    PropertyModel { ty, optional: !is_required(required, properties[n - 1].0@) },
                );
            }
        }
    }
}

proof fn lemma_variants_well_formed(components: &Components, schema: &Schema, n: nat, depth: nat)
    ensures
        resolve_variants(components, schema, n, depth) matches Ok(members) ==> all_well_formed(
            members,
        ),
    decreases depth, schema, n,
{
    if let Some(d) = schema.discriminator {
        if !(n == 0 || n > d.mapping.len()) {
            lemma_variants_well_formed(components, schema, (n - 1) as nat, depth);
            if let Ok(target) = named(components, d.mapping[n - 1].1@) {
                if depth > 0 {
                    lemma_resolve_deep_well_formed(components, &target, (depth - 1) as nat);
                    if let Ok(ty) = resolve_deep(components, &target, (depth - 1) as nat) {
                        let marker = seq![
                            (
                                d.property_name@,
                                PropertyModel {
                                    ty: TypeModel::Ident(d.mapping[n - 1].0@),
                                    optional: false,
                                },
                            ),
                        ];
                        assert(names_sorted(marker));
                        assert(well_formed(marker[0].1.ty));
                        assert(well_formed(TypeModel::Object(marker)));
                        let v = variant(d.property_name@, d.mapping[n - 1].0@, ty);
                        assert(v == TypeModel::And(seq![TypeModel::Object(marker), ty]));
                        assert(well_formed(v));
                    }
                }
            }
        }
    }
}

} // verus!
