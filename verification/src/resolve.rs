//! Resolution of schemas into types. A named schema that is inlined is
//! resolved once, and its type is kept for the next place that inlines it.

use vstd::prelude::*;
use vstd::string::StringExecFns;
use crate::document::InputApi;
use crate::error::{Construct, Error};
use crate::fields::{put_field_into, well_formed};
use crate::schema::{
    bare_name, lemma_resolve_deep_well_formed, lemma_resolve_shallow_well_formed,
    literals, mapping_len, named, position_from, resolve_deep, resolve_each, resolve_inlined,
    resolve_properties, resolve_shallow, resolve_variants, type_result, variant, Components,
    Schema, SchemaKind, SchemaRef,
};
use crate::text::{has_char, has_name, same_name, strip_prefix};
use crate::types::{
    fields_view, types_view, Field, FieldModel, Property, PropertyModel, Type, TypeModel,
};

verus! {

broadcast use {vstd::seq::group_seq_axioms, vstd::std_specs::vec::group_vec_axioms};

/// The types of the named schemas that were resolved so far, by the
/// position of the schema, each with the least depth at which the schema
/// has that type.
pub type Memo = Vec<Option<(Type, usize)>>;

/// What resolution gives at depth `d` for something that has the value
/// `value` from depth `least` on: below that depth, schemas are taken to
/// be inlined into one another without end.
pub open spec fn at_depth<T>(d: nat, least: nat, value: T) -> Result<T, Error> {
    if d >= least {
        Ok(value)
    } else {
        Err(Error::UnsupportedConstruct(Construct::CyclicReference))
    }
}

/// The schema has the type `t` at every depth from `least` on, and none
/// below.
pub open spec fn settles_deep(
    components: &Components,
    schema: &Schema,
    t: TypeModel,
    least: nat,
) -> bool {
    forall|d: nat| #[trigger] resolve_deep(components, schema, d) == at_depth(d, least, t)
}

/// The schema is stood for by the type `t` at every depth from `least`
/// on, and by none below.
pub open spec fn settles_shallow(
    components: &Components,
    schema: &SchemaRef,
    t: TypeModel,
    least: nat,
) -> bool {
    forall|d: nat| #[trigger] resolve_shallow(components, schema, d) == at_depth(d, least, t)
}

/// The named schema at position `i` of the table.
pub open spec fn entry_schema(components: &Components, i: int) -> Schema {
    match components.schemas[i].1 {
        SchemaRef::Item(schema) => *schema,
        SchemaRef::Reference(_) => arbitrary(),
    }
}

/// The type of the named schema at position `i` where it is inlined at
/// depth `d`.
pub open spec fn inlined_at(components: &Components, i: int, d: nat) -> Result<TypeModel, Error> {
    if d == 0 {
        Err(Error::UnsupportedConstruct(Construct::CyclicReference))
    } else {
        resolve_deep(components, &entry_schema(components, i), (d - 1) as nat)
    }
}

/// Every type that the memo holds for a named schema is the type of that
/// schema, from the depth that the memo holds with it.
pub open spec fn memo_valid(memo: &Memo, components: &Components) -> bool {
    forall|i: int|
        0 <= i < memo.len() ==> (#[trigger] memo[i] matches Some(entry) ==> {
            &&& i < components.schemas.len()
            &&& components.schemas[i].1 is Item
            &&& settles_deep(components, &entry_schema(components, i), entry.0@, entry.1 as nat)
        })
}

proof fn lemma_literals_fail(enumeration: Seq<Option<String>>, n: nat, m: nat)
    requires
        n <= m <= enumeration.len(),
        literals(enumeration, n) is Err,
    ensures
        literals(enumeration, m) == literals(enumeration, n),
    decreases m - n,
{
    if n < m {
        lemma_literals_fail(enumeration, n, (m - 1) as nat);
    }
}

proof fn lemma_each_fail(
    components: &Components,
    items: &Vec<SchemaRef>,
    n: nat,
    m: nat,
    depth: nat,
)
    requires
        n <= m <= items.len(),
        resolve_each(components, items, n, depth) is Err,
    ensures
        resolve_each(components, items, m, depth) == resolve_each(components, items, n, depth),
    decreases m - n,
{
    if n < m {
        lemma_each_fail(components, items, n, (m - 1) as nat, depth);
    }
}

proof fn lemma_properties_fail(
    components: &Components,
    properties: &Vec<(String, SchemaRef)>,
    required: &Vec<String>,
    n: nat,
    m: nat,
    depth: nat,
)
    requires
        n <= m <= properties.len(),
        resolve_properties(components, properties, required, n, depth) is Err,
    ensures
        resolve_properties(components, properties, required, m, depth) == resolve_properties(
            components,
            properties,
            required,
            n,
            depth,
        ),
    decreases m - n,
{
    if n < m {
        lemma_properties_fail(components, properties, required, n, (m - 1) as nat, depth);
    }
}

proof fn lemma_variants_fail(components: &Components, schema: &Schema, n: nat, m: nat, depth: nat)
    requires
        schema.discriminator is Some,
        n <= m <= mapping_len(schema),
        resolve_variants(components, schema, n, depth) is Err,
    ensures
        resolve_variants(components, schema, m, depth) == resolve_variants(
            components,
            schema,
            n,
            depth,
        ),
    decreases m - n,
{
    if n < m {
        lemma_variants_fail(components, schema, n, (m - 1) as nat, depth);
    }
}

/// Finds the position of the schema that a reference names.
pub(crate) fn find_schema(api: &InputApi, name: &str) -> (r: Result<usize, Error>)
    ensures
        match r {
            Ok(i) => {
                &&& i < api.api.components.schemas.len()
                &&& api.api.components.schemas[i as int].1 is Item
                &&& named(&api.api.components, name@) == Ok::<Schema, Error>(
                    entry_schema(&api.api.components, i as int),
                )
            },
            Err(e) => named(&api.api.components, name@) == Err::<Schema, Error>(e),
        },
{
    let components = &api.api.components;
    let mut bare: &str = name;
    loop
        invariant
            bare_name(bare@) == bare_name(name@),
        ensures
            bare@ == bare_name(name@),
        decreases bare@.len(),
    {
        proof {
            reveal_strlit("#/components/schemas/");
        }
        match strip_prefix(bare, "#/components/schemas/") {
            Some(rest) => {
                bare = rest;
            },
            None => {
                break ;
            },
        }
    }
    let mut i: usize = 0;
    while i < components.schemas.len()
        invariant
            i <= components.schemas.len(),
            components == &api.api.components,
            bare@ == bare_name(name@),
            position_from(components, bare@, 0) == position_from(components, bare@, i as int),
        decreases components.schemas.len() - i,
    {
        if same_name(components.schemas[i].0.as_str(), bare) {
            return match &components.schemas[i].1 {
                SchemaRef::Reference(_) => Err(
                    Error::UnsupportedConstruct(Construct::ReferenceToReference),
                ),
                SchemaRef::Item(_) => Ok(i),
            };
        }
        i = i + 1;
    }
    Err(Error::UnresolvedReference)
}

/// Finds the schema that a reference names.
pub fn schema_by_name<'a>(api: &'a InputApi, name: &str) -> (r: Result<&'a Schema, Error>)
    ensures
        match r {
            Ok(schema) => named(&api.api.components, name@) == Ok::<Schema, Error>(*schema),
            Err(e) => named(&api.api.components, name@) == Err::<Schema, Error>(e),
        },
{
    match find_schema(api, name) {
        Err(e) => Err(e),
        Ok(i) => match &api.api.components.schemas[i].1 {
            SchemaRef::Reference(_) => Err(
                Error::UnsupportedConstruct(Construct::ReferenceToReference),
            ),
            SchemaRef::Item(schema) => Ok(schema),
        },
    }
}

fn larger(a: usize, b: usize) -> (r: usize)
    ensures
        r == if a >= b {
            a
        } else {
            b
        },
{
    if a >= b {
        a
    } else {
        b
    }
}

fn literal_members(enumeration: &Vec<Option<String>>) -> (r: Result<Vec<Type>, Error>)
    ensures
        match r {
            Ok(members) => literals(enumeration@, enumeration.len() as nat) == Ok::<
                Seq<TypeModel>,
                Error,
            >(types_view(&members)),
            Err(e) => literals(enumeration@, enumeration.len() as nat) == Err::<
                Seq<TypeModel>,
                Error,
            >(e),
        },
{
    let mut out: Vec<Type> = Vec::new();
    let mut i: usize = 0;
    assert(types_view(&out) =~= Seq::<TypeModel>::empty());
    while i < enumeration.len()
        invariant
            i <= enumeration.len(),
            literals(enumeration@, i as nat) == Ok::<Seq<TypeModel>, Error>(types_view(&out)),
        decreases enumeration.len() - i,
    {
        let ghost before = types_view(&out);
        match &enumeration[i] {
            None => {
                proof {
                    lemma_literals_fail(enumeration@, (i + 1) as nat, enumeration.len() as nat);
                }
                return Err(Error::UnsupportedConstruct(Construct::NullEnumValue));
            },
            Some(value) => {
                out.push(Type::Ident(value.clone()));
                assert(types_view(&out) =~= before.push(TypeModel::Ident(value@)));
            },
        }
        i = i + 1;
    }
    Ok(out)
}

fn repeat(element: &Type, n: usize) -> (r: Vec<Type>)
    ensures
        types_view(&r) == Seq::new(n as nat, |i: int| element@),
{
    let mut out: Vec<Type> = Vec::new();
    let mut i: usize = 0;
    while i < n
        invariant
            i <= n,
            out.len() == i,
            forall|k: int| 0 <= k < i ==> out[k]@ == element@,
        decreases n - i,
    {
        out.push(element.clone());
        i = i + 1;
    }
    assert(types_view(&out) =~= Seq::new(n as nat, |i: int| element@));
    out
}

fn tagged(property_name: String, tag: String, ty: Type) -> (r: Type)
    ensures
        r@ == variant(property_name@, tag@, ty@),
{
    let mut marker: Vec<Field> = Vec::new();
    marker.push((property_name, Property::required(Type::Ident(tag))));
    let mut members: Vec<Type> = Vec::new();
    members.push(Type::Object(marker));
    members.push(ty);
    assert(fields_view(&marker) =~= seq![
        (property_name@, PropertyModel { ty: TypeModel::Ident(tag@), optional: false }),
    ]);
    assert(types_view(&members) =~= seq![TypeModel::Object(fields_view(&marker)), ty@]);
    Type::And(members)
}

/// The type of the named schema at position `i`: from the memo where it
/// is there, else resolved and put there.
pub(crate) fn entry_at(
    api: &InputApi,
    memo: &mut Memo,
    i: usize,
    depth: usize,
) -> (r: Result<(Type, usize), Error>)
    requires
        i < api.api.components.schemas.len(),
        api.api.components.schemas[i as int].1 is Item,
        memo_valid(old(memo), &api.api.components),
    ensures
        memo_valid(final(memo), &api.api.components),
        match r {
            Ok((t, least)) => least <= depth && settles_deep(
                &api.api.components,
                &entry_schema(&api.api.components, i as int),
                t@,
                least as nat,
            ),
            Err(e) => resolve_deep(
                &api.api.components,
                &entry_schema(&api.api.components, i as int),
                depth as nat,
            ) == Err::<TypeModel, Error>(e),
        },
    decreases 3 * depth + 2,
{
    while memo.len() <= i
        invariant
            memo_valid(memo, &api.api.components),
        decreases i + 1 - memo.len(),
    {
        memo.push(None);
    }
    let known: Option<(Type, usize)> = match &memo[i] {
        Some((t, least)) => Some((t.clone(), *least)),
        None => None,
    };
    match known {
        Some((t, least)) => {
            if least <= depth {
                Ok((t, least))
            } else {
                Err(Error::UnsupportedConstruct(Construct::CyclicReference))
            }
        },
        None => match &api.api.components.schemas[i].1 {
            SchemaRef::Reference(_) => Err(
                Error::UnsupportedConstruct(Construct::ReferenceToReference),
            ),
            SchemaRef::Item(schema) => match resolve_deep_at(api, memo, schema, depth) {
                Err(e) => Err(e),
                Ok((t, least)) => {
                    while memo.len() <= i
                        invariant
                            memo_valid(memo, &api.api.components),
                        decreases i + 1 - memo.len(),
                    {
                        memo.push(None);
                    }
                    memo[i] = Some((t.clone(), least));
                    Ok((t, least))
                },
            },
        },
    }
}

/// The type of the named schema at position `i`, inlined at `depth`.
fn inline_at(api: &InputApi, memo: &mut Memo, i: usize, depth: usize) -> (r:
    Result<(Type, usize), Error>)
    requires
        i < api.api.components.schemas.len(),
        api.api.components.schemas[i as int].1 is Item,
        memo_valid(old(memo), &api.api.components),
    ensures
        memo_valid(final(memo), &api.api.components),
        match r {
            Ok((t, least)) => least <= depth && forall|d: nat| #[trigger]
                inlined_at(&api.api.components, i as int, d) == at_depth(d, least as nat, t@),
            Err(e) => inlined_at(&api.api.components, i as int, depth as nat) == Err::<
                TypeModel,
                Error,
            >(e),
        },
    decreases 3 * depth,
{
    if depth == 0 {
        return Err(Error::UnsupportedConstruct(Construct::CyclicReference));
    }
    match entry_at(api, memo, i, depth - 1) {
        Err(e) => Err(e),
        Ok((t, least)) => Ok((t, least + 1)),
    }
}

fn resolve_deep_at(
    api: &InputApi,
    memo: &mut Memo,
    schema: &Schema,
    depth: usize,
) -> (r: Result<(Type, usize), Error>)
    requires
        memo_valid(old(memo), &api.api.components),
    ensures
        memo_valid(final(memo), &api.api.components),
        match r {
            Ok((t, least)) => least <= depth && settles_deep(
                &api.api.components,
                schema,
                t@,
                least as nat,
            ),
            Err(e) => resolve_deep(&api.api.components, schema, depth as nat) == Err::<
                TypeModel,
                Error,
            >(e),
        },
    decreases 3 * depth + 1, schema, mapping_len(schema) + 1,
{
    let ghost c = &api.api.components;
    match &schema.kind {
        SchemaKind::String(enumeration) => {
            if enumeration.len() == 0 {
                Ok((Type::String, 0))
            } else {
                match literal_members(enumeration) {
                    Ok(members) => Ok((Type::Or(members), 0)),
                    Err(e) => Err(e),
                }
            }
        },
        SchemaKind::Number | SchemaKind::Integer => Ok((Type::Number, 0)),
        SchemaKind::Boolean => Ok((Type::Boolean, 0)),
        SchemaKind::Object { properties, required } => {
            match resolve_properties_at(api, memo, properties, required, depth) {
                Err(e) => Err(e),
                Ok((fields, least)) => {
                    assert(resolve_properties(
                        c,
                        properties,
                        required,
                        properties.len() as nat,
                        depth as nat,
                    ) is Ok);
                    match &schema.discriminator {
                        None => {
                            assert forall|d: nat| #[trigger]
                                resolve_deep(c, schema, d) == at_depth(
                                    d,
                                    least as nat,
                                    TypeModel::Object(fields_view(&fields)),
                                ) by {
                                assert(resolve_properties(
                                    c,
                                    properties,
                                    required,
                                    properties.len() as nat,
                                    d,
                                ) == at_depth(d, least as nat, fields_view(&fields)));
                            }
                            Ok((Type::Object(fields), least))
                        },
                        Some(d) => {
                            if d.extensions != 0 {
                                Err(
                                    Error::UnsupportedConstruct(
                                        Construct::DiscriminatorExtensions,
                                    ),
                                )
                            } else if d.mapping.len() < 2 {
                                Err(Error::UnsupportedConstruct(Construct::DiscriminatorMapping))
                            } else {
                                match resolve_variants_at(api, memo, schema, depth) {
                                    Ok((members, more)) => {
                                        let both = larger(least, more);
                                        assert forall|at: nat| #[trigger]
                                            resolve_deep(c, schema, at) == at_depth(
                                                at,
                                                both as nat,
                                                TypeModel::Or(types_view(&members)),
                                            ) by {
                                            assert(resolve_properties(
                                                c,
                                                properties,
                                                required,
                                                properties.len() as nat,
                                                at,
                                            ) == at_depth(at, least as nat, fields_view(&fields)));
                                            assert(resolve_variants(
                                                c,
                                                schema,
                                                mapping_len(schema),
                                                at,
                                            ) == at_depth(at, more as nat, types_view(&members)));
                                        }
                                        Ok((Type::Or(members), both))
                                    },
                                    Err(e) => Err(e),
                                }
                            }
                        },
                    }
                },
            }
        },
        SchemaKind::Array { items, min_items, max_items } => match items {
            None => Err(Error::UnsupportedConstruct(Construct::MissingItems)),
            Some(item) => match resolve_shallow_at(api, memo, item, depth) {
                Err(e) => Err(e),
                Ok((element, least)) => {
                    assert(resolve_shallow(c, item, depth as nat) == at_depth(
                        depth as nat,
                        least as nat,
                        element@,
                    ));
                    match (min_items, max_items) {
                        (None, None) => {
                            assert forall|d: nat| #[trigger]
                                resolve_deep(c, schema, d) == at_depth(
                                    d,
                                    least as nat,
                                    TypeModel::Array(Box::new(element@)),
                                ) by {
                                assert(resolve_shallow(c, item, d) == at_depth(
                                    d,
                                    least as nat,
                                    element@,
                                ));
                            }
                            Ok((Type::Array(Box::new(element)), least))
                        },
                        (Some(min), Some(max)) => {
                            if *min == *max {
                                let elements = repeat(&element, *min);
                                assert forall|d: nat| #[trigger]
                                    resolve_deep(c, schema, d) == at_depth(
                                        d,
                                        least as nat,
                                        TypeModel::Tuple(types_view(&elements)),
                                    ) by {
                                    assert(resolve_shallow(c, item, d) == at_depth(
                                        d,
                                        least as nat,
                                        element@,
                                    ));
                                }
                                Ok((Type::Tuple(elements), least))
                            } else {
                                Err(Error::UnsupportedConstruct(Construct::ArrayBounds))
                            }
                        },
                        _ => Err(Error::UnsupportedConstruct(Construct::ArrayBounds)),
                    }
                },
            },
        },
        SchemaKind::OneOf(items) => match resolve_each_at(api, memo, items, depth) {
            Ok((members, least)) => {
                assert forall|d: nat| #[trigger]
                    resolve_deep(c, schema, d) == at_depth(
                        d,
                        least as nat,
                        TypeModel::Or(types_view(&members)),
                    ) by {
                    assert(resolve_each(c, items, items.len() as nat, d) == at_depth(
                        d,
                        least as nat,
                        types_view(&members),
                    ));
                }
                Ok((Type::Or(members), least))
            },
            Err(e) => Err(e),
        },
        SchemaKind::AllOf(items) => match resolve_each_at(api, memo, items, depth) {
            Ok((members, least)) => {
                assert forall|d: nat| #[trigger]
                    resolve_deep(c, schema, d) == at_depth(
                        d,
                        least as nat,
                        TypeModel::And(types_view(&members)),
                    ) by {
                    assert(resolve_each(c, items, items.len() as nat, d) == at_depth(
                        d,
                        least as nat,
                        types_view(&members),
                    ));
                }
                Ok((Type::And(members), least))
            },
            Err(e) => Err(e),
        },
        SchemaKind::AnyOf => Err(Error::UnsupportedConstruct(Construct::AnyOf)),
        SchemaKind::Not => Err(Error::UnsupportedConstruct(Construct::Not)),
        SchemaKind::Any => Err(Error::UnsupportedConstruct(Construct::Any)),
    }
}

fn resolve_shallow_at(
    api: &InputApi,
    memo: &mut Memo,
    schema: &SchemaRef,
    depth: usize,
) -> (r: Result<(Type, usize), Error>)
    requires
        memo_valid(old(memo), &api.api.components),
    ensures
        memo_valid(final(memo), &api.api.components),
        match r {
            Ok((t, least)) => least <= depth && settles_shallow(
                &api.api.components,
                schema,
                t@,
                least as nat,
            ),
            Err(e) => resolve_shallow(&api.api.components, schema, depth as nat) == Err::<
                TypeModel,
                Error,
            >(e),
        },
    decreases 3 * depth + 1, schema, 0nat,
{
    let ghost c = &api.api.components;
    match schema {
        SchemaRef::Reference(reference) => {
            match strip_prefix(reference.as_str(), "#/components/schemas/") {
                None => Err(Error::UnsupportedConstruct(Construct::ForeignReference)),
                Some(name) => {
                    if has_char(name, '_') {
                        match find_schema(api, reference.as_str()) {
                            Err(e) => Err(e),
                            Ok(i) => match inline_at(api, memo, i, depth) {
                                Err(e) => Err(e),
                                Ok((t, least)) => {
                                    assert forall|d: nat| #[trigger]
                                        resolve_shallow(c, schema, d) == at_depth(
                                            d,
                                            least as nat,
                                            t@,
                                        ) by {
                                        assert(inlined_at(c, i as int, d) == at_depth(
                                            d,
                                            least as nat,
                                            t@,
                                        ));
                                    }
                                    Ok((t, least))
                                },
                            },
                        }
                    } else {
                        Ok((Type::Reference(String::from_str(name)), 0))
                    }
                },
            }
        },
        SchemaRef::Item(item) => match resolve_deep_at(api, memo, item, depth) {
            Err(e) => Err(e),
            Ok((t, least)) => {
                assert forall|d: nat| #[trigger]
                    resolve_shallow(c, schema, d) == at_depth(d, least as nat, t@) by {
                    assert(resolve_deep(c, item, d) == at_depth(d, least as nat, t@));
                }
                Ok((t, least))
            },
        },
    }
}

fn resolve_each_at(
    api: &InputApi,
    memo: &mut Memo,
    items: &Vec<SchemaRef>,
    depth: usize,
) -> (r: Result<(Vec<Type>, usize), Error>)
    requires
        memo_valid(old(memo), &api.api.components),
    ensures
        memo_valid(final(memo), &api.api.components),
        match r {
            Ok((members, least)) => least <= depth && forall|d: nat| #[trigger]
                resolve_each(&api.api.components, items, items.len() as nat, d) == at_depth(
                    d,
                    least as nat,
                    types_view(&members),
                ),
            Err(e) => resolve_each(&api.api.components, items, items.len() as nat, depth as nat)
                == Err::<Seq<TypeModel>, Error>(e),
        },
    decreases 3 * depth + 1, items, items.len(),
{
    let mut out: Vec<Type> = Vec::new();
    let mut least: usize = 0;
    let mut i: usize = 0;
    assert(types_view(&out) =~= Seq::<TypeModel>::empty());
    while i < items.len()
        invariant
            i <= items.len(),
            least <= depth,
            memo_valid(memo, &api.api.components),
            forall|d: nat| #[trigger]
                resolve_each(&api.api.components, items, i as nat, d) == at_depth(
                    d,
                    least as nat,
                    types_view(&out),
                ),
        decreases items.len() - i,
    {
        let ghost before = types_view(&out);
        let ghost least_before = least;
        match resolve_shallow_at(api, memo, &items[i], depth) {
            Err(e) => {
                proof {
                    assert(resolve_each(&api.api.components, items, i as nat, depth as nat) is Ok);
                    lemma_each_fail(
                        &api.api.components,
                        items,
                        (i + 1) as nat,
                        items.len() as nat,
                        depth as nat,
                    );
                }
                return Err(e);
            },
            Ok((t, more)) => {
                out.push(t);
                least = larger(least, more);
                assert(types_view(&out) =~= before.push(t@));
                assert forall|d: nat| #[trigger]
                    resolve_each(&api.api.components, items, (i + 1) as nat, d) == at_depth(
                        d,
                        least as nat,
                        types_view(&out),
                    ) by {
                    assert(resolve_each(&api.api.components, items, i as nat, d) == at_depth(
                        d,
                        least_before as nat,
                        before,
                    ));
                    assert(resolve_shallow(&api.api.components, &items[i as int], d) == at_depth(
                        d,
                        more as nat,
                        t@,
                    ));
                }
            },
        }
        i = i + 1;
    }
    Ok((out, least))
}

fn resolve_properties_at(
    api: &InputApi,
    memo: &mut Memo,
    properties: &Vec<(String, SchemaRef)>,
    required: &Vec<String>,
    depth: usize,
) -> (r: Result<(Vec<Field>, usize), Error>)
    requires
        memo_valid(old(memo), &api.api.components),
    ensures
        memo_valid(final(memo), &api.api.components),
        match r {
            Ok((fields, least)) => least <= depth && forall|d: nat| #[trigger]
                resolve_properties(
                    &api.api.components,
                    properties,
                    required,
                    properties.len() as nat,
                    d,
                ) == at_depth(d, least as nat, fields_view(&fields)),
            Err(e) => resolve_properties(
                &api.api.components,
                properties,
                required,
                properties.len() as nat,
                depth as nat,
            ) == Err::<Seq<FieldModel>, Error>(e),
        },
    decreases 3 * depth + 1, properties, properties.len(),
{
    let mut out: Vec<Field> = Vec::new();
    let mut least: usize = 0;
    let mut i: usize = 0;
    assert(fields_view(&out) =~= Seq::empty());
    while i < properties.len()
        invariant
            i <= properties.len(),
            least <= depth,
            memo_valid(memo, &api.api.components),
            forall|d: nat| #[trigger]
                resolve_properties(&api.api.components, properties, required, i as nat, d)
                    == at_depth(d, least as nat, fields_view(&out)),
        decreases properties.len() - i,
    {
        let ghost before = fields_view(&out);
        let ghost least_before = least;
        match resolve_shallow_at(api, memo, &properties[i].1, depth) {
            Err(e) => {
                proof {
                    assert(resolve_properties(
                        &api.api.components,
                        properties,
                        required,
                        i as nat,
                        depth as nat,
                    ) is Ok);
                    lemma_properties_fail(
                        &api.api.components,
                        properties,
                        required,
                        (i + 1) as nat,
                        properties.len() as nat,
                        depth as nat,
                    );
                }
                return Err(e);
            },
            Ok((ty, more)) => {
                let optional = !has_name(required, properties[i].0.as_str());
                put_field_into(&mut out, properties[i].0.clone(), Property { ty, optional });
                least = larger(least, more);
                assert forall|d: nat| #[trigger]
                    resolve_properties(
                        &api.api.components,
                        properties,
                        required,
                        (i + 1) as nat,
                        d,
                    ) == at_depth(d, least as nat, fields_view(&out)) by {
                    assert(resolve_properties(
                        &api.api.components,
                        properties,
                        required,
                        i as nat,
                        d,
                    ) == at_depth(d, least_before as nat, before));
                    assert(resolve_shallow(&api.api.components, &properties[i as int].1, d)
                        == at_depth(d, more as nat, ty@));
                }
            },
        }
        i = i + 1;
    }
    Ok((out, least))
}

fn resolve_variants_at(
    api: &InputApi,
    memo: &mut Memo,
    schema: &Schema,
    depth: usize,
) -> (r: Result<(Vec<Type>, usize), Error>)
    requires
        schema.discriminator is Some,
        memo_valid(old(memo), &api.api.components),
    ensures
        memo_valid(final(memo), &api.api.components),
        match r {
            Ok((members, least)) => least <= depth && forall|d: nat| #[trigger]
                resolve_variants(&api.api.components, schema, mapping_len(schema), d) == at_depth(
                    d,
                    least as nat,
                    types_view(&members),
                ),
            Err(e) => resolve_variants(
                &api.api.components,
                schema,
                mapping_len(schema),
                depth as nat,
            ) == Err::<Seq<TypeModel>, Error>(e),
        },
    decreases 3 * depth + 1, schema, mapping_len(schema),
{
    let mut out: Vec<Type> = Vec::new();
    let mut least: usize = 0;
    let mut i: usize = 0;
    assert(types_view(&out) =~= Seq::<TypeModel>::empty());
    match &schema.discriminator {
        None => {},
        Some(d) => {
            while i < d.mapping.len()
                invariant
                    i <= d.mapping.len(),
                    least <= depth,
                    schema.discriminator == Some(*d),
                    memo_valid(memo, &api.api.components),
                    forall|at: nat| #[trigger]
                        resolve_variants(&api.api.components, schema, i as nat, at) == at_depth(
                            at,
                            least as nat,
                            types_view(&out),
                        ),
                decreases d.mapping.len() - i,
            {
                let ghost before = types_view(&out);
                let ghost least_before = least;
                let k = match find_schema(api, d.mapping[i].1.as_str()) {
                    Err(e) => {
                        proof {
                            assert(resolve_variants(
                                &api.api.components,
                                schema,
                                i as nat,
                                depth as nat,
                            ) is Ok);
                            lemma_variants_fail(
                                &api.api.components,
                                schema,
                                (i + 1) as nat,
                                mapping_len(schema),
                                depth as nat,
                            );
                        }
                        return Err(e);
                    },
                    Ok(k) => k,
                };
                match inline_at(api, memo, k, depth) {
                    Err(e) => {
                        proof {
                            assert(resolve_variants(
                                &api.api.components,
                                schema,
                                i as nat,
                                depth as nat,
                            ) is Ok);
                            lemma_variants_fail(
                                &api.api.components,
                                schema,
                                (i + 1) as nat,
                                mapping_len(schema),
                                depth as nat,
                            );
                        }
                        return Err(e);
                    },
                    Ok((ty, more)) => {
                        let member = tagged(d.property_name.clone(), d.mapping[i].0.clone(), ty);
                        out.push(member);
                        least = larger(least, more);
                        assert(types_view(&out) =~= before.push(
                            variant(d.property_name@, d.mapping[i as int].0@, ty@),
                        ));
                        assert forall|at: nat| #[trigger]
                            resolve_variants(&api.api.components, schema, (i + 1) as nat, at)
                                == at_depth(at, least as nat, types_view(&out)) by {
                            assert(resolve_variants(&api.api.components, schema, i as nat, at)
                                == at_depth(at, least_before as nat, before));
                            assert(inlined_at(&api.api.components, k as int, at) == at_depth(
                                at,
                                more as nat,
                                ty@,
                            ));
                        }
                    },
                }
                i = i + 1;
            }
        },
    }
    Ok((out, least))
}

/// The type of a schema.
pub fn schema_ty(api: &InputApi, schema: &Schema) -> (r: Result<Type, Error>)
    ensures
        type_result(r) == resolve_deep(
            &api.api.components,
            schema,
            api.api.components.schemas.len() as nat,
        ),
        r matches Ok(t) ==> well_formed(t@),
{
    let mut memo: Memo = Vec::new();
    schema_ty_with(api, &mut memo, schema)
}

/// The type of a schema, with the memo of a run.
fn schema_ty_with(api: &InputApi, memo: &mut Memo, schema: &Schema) -> (r:
    Result<Type, Error>)
    requires
        memo_valid(old(memo), &api.api.components),
    ensures
        memo_valid(final(memo), &api.api.components),
        type_result(r) == resolve_deep(
            &api.api.components,
            schema,
            api.api.components.schemas.len() as nat,
        ),
        r matches Ok(t) ==> well_formed(t@),
{
    proof {
        lemma_resolve_deep_well_formed(
            &api.api.components,
            schema,
            api.api.components.schemas.len() as nat,
        );
    }
    match resolve_deep_at(api, memo, schema, api.api.components.schemas.len()) {
        Ok((t, _)) => Ok(t),
        Err(e) => Err(e),
    }
}

/// The type of the named schema at position `i`, with the memo of a run.
pub(crate) fn entry_ty_with(api: &InputApi, memo: &mut Memo, i: usize) -> (r:
    Result<Type, Error>)
    requires
        i < api.api.components.schemas.len(),
        api.api.components.schemas[i as int].1 is Item,
        memo_valid(old(memo), &api.api.components),
    ensures
        memo_valid(final(memo), &api.api.components),
        type_result(r) == resolve_deep(
            &api.api.components,
            &entry_schema(&api.api.components, i as int),
            api.api.components.schemas.len() as nat,
        ),
        r matches Ok(t) ==> well_formed(t@),
{
    proof {
        lemma_resolve_deep_well_formed(
            &api.api.components,
            &entry_schema(&api.api.components, i as int),
            api.api.components.schemas.len() as nat,
        );
    }
    match entry_at(api, memo, i, api.api.components.schemas.len()) {
        Ok((t, _)) => Ok(t),
        Err(e) => Err(e),
    }
}

/// The type that stands for a schema where it is used.
pub fn shallow_schema_ty(api: &InputApi, schema: &SchemaRef) -> (r: Result<Type, Error>)
    ensures
        type_result(r) == resolve_shallow(
            &api.api.components,
            schema,
            api.api.components.schemas.len() as nat,
        ),
        r matches Ok(t) ==> well_formed(t@),
{
    let mut memo: Memo = Vec::new();
    shallow_schema_ty_with(api, &mut memo, schema)
}

/// The type that stands for a schema where it is used, with the memo of
/// a run.
pub(crate) fn shallow_schema_ty_with(
    api: &InputApi,
    memo: &mut Memo,
    schema: &SchemaRef,
) -> (r: Result<Type, Error>)
    requires
        memo_valid(old(memo), &api.api.components),
    ensures
        memo_valid(final(memo), &api.api.components),
        type_result(r) == resolve_shallow(
            &api.api.components,
            schema,
            api.api.components.schemas.len() as nat,
        ),
        r matches Ok(t) ==> well_formed(t@),
{
    proof {
        lemma_resolve_shallow_well_formed(
            &api.api.components,
            schema,
            api.api.components.schemas.len() as nat,
        );
    }
    match resolve_shallow_at(api, memo, schema, api.api.components.schemas.len()) {
        Ok((t, _)) => Ok(t),
        Err(e) => Err(e),
    }
}

/// The schema behind a reference, or the schema itself.
pub fn resolve_schema<'a>(
    api: &'a InputApi,
    schema: &'a SchemaRef,
) -> (r: Result<&'a Schema, Error>)
    ensures
        match schema {
            SchemaRef::Reference(reference) => match r {
                Ok(target) => named(&api.api.components, reference@) == Ok::<Schema, Error>(
                    *target,
                ),
                Err(e) => named(&api.api.components, reference@) == Err::<Schema, Error>(e),
            },
            SchemaRef::Item(item) => r == Ok::<&Schema, Error>(&**item),
        },
{
    match schema {
        SchemaRef::Reference(reference) => schema_by_name(api, reference.as_str()),
        SchemaRef::Item(item) => Ok(item),
    }
}

/// The type of the schema behind a reference, or of the schema itself.
pub fn resolve_schema_ty(api: &InputApi, schema: &SchemaRef) -> (r: Result<Type, Error>)
    ensures
        type_result(r) == resolve_inlined(&api.api.components, schema),
{
    let depth = api.api.components.schemas.len();
    let mut memo: Memo = Vec::new();
    let found = match schema {
        SchemaRef::Reference(reference) => match find_schema(api, reference.as_str()) {
            Err(e) => Err(e),
            Ok(i) => inline_at(api, &mut memo, i, depth),
        },
        SchemaRef::Item(item) => resolve_deep_at(api, &mut memo, item, depth),
    };
    match found {
        Ok((t, _)) => Ok(t),
        Err(e) => Err(e),
    }
}

/// The type that stands for the schema called `name` where it is used.
pub fn ty_by_name(api: &InputApi, name: String) -> (r: Result<Type, Error>)
    ensures
        type_result(r) == resolve_shallow(
            &api.api.components,
            &SchemaRef::Reference(name),
            api.api.components.schemas.len() as nat,
        ),
{
    let reference = SchemaRef::Reference(name);
    shallow_schema_ty(api, &reference)
}

} // verus!
