//! The canonical form of a type.

use vstd::prelude::*;
use crate::canon::{
    canonical, insert_member_into, lemma_canonical, lemma_canonical_of_same_members,
    lemma_canonical_of_sorted, same_members, strictly_sorted,
};
use crate::fields::{
    every_field, lemma_put_field, lemma_put_field_every, names_sorted, put_field, put_field_into,
    well_formed,
};
use crate::types::{
    fields_view, types_view, Field, FieldModel, Property, PropertyModel, Type, TypeModel,
};

verus! {

broadcast use {vstd::seq::group_seq_axioms, vstd::std_specs::vec::group_vec_axioms};

/// The canonical form of a type. The members of a union and of an
/// intersection are brought into canonical form, each kept once, in
/// ascending `type_order`; an intersection of objects only becomes the
/// one object that holds their fields, later members settling with the
/// earlier ones; fields and elements are brought into canonical form
/// where they stand.
pub open spec fn simplify(t: TypeModel) -> TypeModel
    decreases t, 0int,
{
    match t {
        TypeModel::Object(f) => TypeModel::Object(simplify_fields(f)),
        TypeModel::Array(x) => TypeModel::Array(Box::new(simplify(*x))),
        TypeModel::Tuple(s) => TypeModel::Tuple(simplify_each(s)),
        TypeModel::Or(s) => TypeModel::Or(canonical(simplify_each(s))),
        TypeModel::And(s) => {
            let members = canonical(simplify_each(s));
            if all_objects(members) {
                TypeModel::Object(merge(members))
            } else {
                TypeModel::And(members)
            }
        },
        _ => t,
    }
}

/// The canonical forms of the types of a sequence, in its order.
pub open spec fn simplify_each(s: Seq<TypeModel>) -> Seq<TypeModel>
    decreases s, 0int,
{
    Seq::new(
        s.len(),
        |i: int|
            if 0 <= i < s.len() {
                simplify(s[i])
            } else {
                TypeModel::Number
            },
    )
}

/// The fields of a sequence, each with its type in canonical form.
pub open spec fn simplify_fields(f: Seq<FieldModel>) -> Seq<
    FieldModel,
>
    decreases f, 0int,
{
    Seq::new(
        f.len(),
        |i: int|
            if 0 <= i < f.len() {
                (f[i].0, PropertyModel { ty: simplify(f[i].1.ty), optional: f[i].1.optional })
            } else {
                (Seq::empty(), PropertyModel { ty: TypeModel::Number, optional: false })
            },
    )
}

/// Every member is an object.
pub open spec fn all_objects(members: Seq<TypeModel>) -> bool {
    forall|i: int| 0 <= i < members.len() ==> members[i] is Object
}

/// The fields of an object; none for another type.
pub open spec fn fields_of(t: TypeModel) -> Seq<FieldModel> {
    match t {
        TypeModel::Object(f) => f,
        _ => Seq::empty(),
    }
}

/// `acc` after the fields of `f` were put into it one by one, in their
/// order.
pub open spec fn absorb(acc: Seq<FieldModel>, f: Seq<FieldModel>) -> Seq<
    FieldModel,
>
    decreases f.len(),
{
    if f.len() == 0 {
        acc
    } else {
        put_field(absorb(acc, f.drop_last()), f.last().0, f.last().1)
    }
}

/// The fields of the object that an intersection of objects becomes: those
/// of its members, taken member by member.
pub open spec fn merge(members: Seq<TypeModel>) -> Seq<FieldModel>
    decreases members.len(),
{
    if members.len() == 0 {
        Seq::empty()
    } else {
        absorb(merge(members.drop_last()), fields_of(members.last()))
    }
}

/// Brings a type into its canonical form.
pub fn simplify_ty(ty: &Type) -> (r: Type)
    ensures
        r@ == simplify(ty@),
        well_formed(ty@) ==> well_formed(r@),
    decreases ty, 1int,
{
    proof {
        if well_formed(ty@) {
            lemma_simplify_well_formed(ty@);
        }
    }
    match ty {
        Type::Reference(_) | Type::Number | Type::String | Type::Boolean | Type::Ident(_) => {
            ty.clone()
        },
        Type::Object(fields) => Type::Object(simplify_field_list(fields)),
        Type::Array(item) => {
            let inner = simplify_ty(item);
            Type::Array(Box::new(inner))
        },
        Type::Tuple(items) => Type::Tuple(simplify_list(items)),
        Type::Or(items) => Type::Or(canonical_members(items)),
        Type::And(items) => {
            let members = canonical_members(items);
            if only_objects(&members) {
                Type::Object(merge_members(&members))
            } else {
                Type::And(members)
            }
        },
    }
}

fn simplify_list(items: &Vec<Type>) -> (r: Vec<Type>)
    ensures
        types_view(&r) == simplify_each(types_view(items)),
    decreases items, 0int,
{
    let mut out: Vec<Type> = Vec::new();
    let mut i: usize = 0;
    while i < items.len()
        invariant
            i <= items.len(),
            out.len() == i,
            forall|k: int| 0 <= k < i ==> out[k]@ == simplify(items[k]@),
        decreases items.len() - i,
    {
        out.push(simplify_ty(&items[i]));
        i = i + 1;
    }
    assert(types_view(&out) =~= simplify_each(types_view(items)));
    out
}

fn simplify_field_list(fields: &Vec<Field>) -> (r: Vec<Field>)
    ensures
        fields_view(&r) == simplify_fields(fields_view(fields)),
    decreases fields, 0int,
{
    let mut out: Vec<Field> = Vec::new();
    let mut i: usize = 0;
    while i < fields.len()
        invariant
            i <= fields.len(),
            out.len() == i,
            forall|k: int|
                0 <= k < i ==> out[k].0@ == fields[k].0@ && out[k].1.ty@ == simplify(
                    fields[k].1.ty@,
                ) && out[k].1.optional == fields[k].1.optional,
        decreases fields.len() - i,
    {
        let ty = simplify_ty(&fields[i].1.ty);
        out.push((fields[i].0.clone(), Property { ty, optional: fields[i].1.optional }));
        i = i + 1;
    }
    assert(fields_view(&out) =~= simplify_fields(fields_view(fields)));
    out
}

/// The canonical forms of the members, as a canonical member list.
fn canonical_members(items: &Vec<Type>) -> (r: Vec<Type>)
    ensures
        types_view(&r) == canonical(simplify_each(types_view(items))),
    decreases items, 0int,
{
    let mut out: Vec<Type> = Vec::new();
    let mut i: usize = 0;
    let ghost all = simplify_each(types_view(items));
    assert(all.take(0) =~= Seq::<TypeModel>::empty());
    assert(types_view(&out) =~= Seq::<TypeModel>::empty());
    while i < items.len()
        invariant
            i <= items.len(),
            all == simplify_each(types_view(items)),
            types_view(&out) == canonical(all.take(i as int)),
        decreases items.len() - i,
    {
        let member = simplify_ty(&items[i]);
        assert(all.take(i + 1).drop_last() =~= all.take(i as int));
        assert(all.take(i + 1).last() == member@);
        insert_member_into(&mut out, member);
        i = i + 1;
    }
    assert(all.take(i as int) =~= all);
    out
}

fn only_objects(members: &Vec<Type>) -> (r: bool)
    ensures
        r == all_objects(types_view(members)),
{
    let mut i: usize = 0;
    while i < members.len()
        invariant
            i <= members.len(),
            forall|k: int| 0 <= k < i ==> types_view(members)[k] is Object,
        decreases members.len() - i,
    {
        match &members[i] {
            Type::Object(_) => {},
            _ => {
                assert(!(types_view(members)[i as int] is Object));
                return false;
            },
        }
        i = i + 1;
    }
    true
}

fn merge_members(members: &Vec<Type>) -> (r: Vec<Field>)
    ensures
        fields_view(&r) == merge(types_view(members)),
{
    let mut out: Vec<Field> = Vec::new();
    let ghost all = types_view(members);
    assert(all.take(0) =~= Seq::<TypeModel>::empty());
    assert(fields_view(&out) =~= Seq::empty());
    let mut i: usize = 0;
    while i < members.len()
        invariant
            i <= members.len(),
            all == types_view(members),
            fields_view(&out) == merge(all.take(i as int)),
        decreases members.len() - i,
    {
        assert(all.take(i + 1).drop_last() =~= all.take(i as int));
        assert(all.take(i + 1).last() == members[i as int]@);
        match &members[i] {
            Type::Object(fields) => {
                let ghost f = fields_view(fields);
                let ghost acc = fields_view(&out);
                assert(f.take(0) =~= Seq::empty());
                let mut j: usize = 0;
                while j < fields.len()
                    invariant
                        j <= fields.len(),
                        f == fields_view(fields),
                        fields_view(&out) == absorb(acc, f.take(j as int)),
                    decreases fields.len() - j,
                {
                    assert(f.take(j + 1).drop_last() =~= f.take(j as int));
                    assert(f.take(j + 1).last() == f[j as int]);
                    put_field_into(&mut out, fields[j].0.clone(), fields[j].1.clone());
                    j = j + 1;
                }
                assert(f.take(j as int) =~= f);
            },
            _ => {},
        }
        i = i + 1;
    }
    assert(all.take(i as int) =~= all);
    out
}

/// Every field's type is its own canonical form.
pub open spec fn fields_settled(f: Seq<FieldModel>) -> bool {
    every_field(f, |t: TypeModel| simplify(t) == t)
}

/// What holds of the type of every field of two lists holds of the type
/// of every field after the second was put into the first.
pub proof fn lemma_absorb_every(
    acc: Seq<FieldModel>,
    f: Seq<FieldModel>,
    holds: spec_fn(TypeModel) -> bool,
)
    requires
        every_field(acc, holds),
        every_field(f, holds),
    ensures
        every_field(absorb(acc, f), holds),
    decreases f.len(),
{
    if f.len() > 0 {
        let q = f.drop_last();
        assert forall|i: int| 0 <= i < q.len() implies holds(#[trigger] q[i].1.ty) by {
            assert(q[i] == f[i]);
        }
        lemma_absorb_every(acc, q, holds);
        assert(holds(f[f.len() - 1].1.ty));
        lemma_put_field_every(absorb(acc, q), f.last().0, f.last().1, holds);
    }
}

/// What holds of the type of every field of every member holds of the
/// type of every field of the merged object.
pub proof fn lemma_merge_every(members: Seq<TypeModel>, holds: spec_fn(TypeModel) -> bool)
    requires
        forall|k: int|
            0 <= k < members.len() ==> every_field(fields_of(#[trigger] members[k]), holds),
    ensures
        every_field(merge(members), holds),
    decreases members.len(),
{
    if members.len() > 0 {
        let q = members.drop_last();
        assert forall|k: int| 0 <= k < q.len() implies every_field(
            fields_of(#[trigger] q[k]),
            holds,
        ) by {
            assert(q[k] == members[k]);
        }
        lemma_merge_every(q, holds);
        assert(every_field(fields_of(members[members.len() - 1]), holds));
        lemma_absorb_every(merge(q), fields_of(members.last()), holds);
    }
}

/// Putting a field list into one that is in the order of its names gives
/// one that is in the order of its names.
pub proof fn lemma_absorb_sorted(acc: Seq<FieldModel>, f: Seq<FieldModel>)
    requires
        names_sorted(acc),
    ensures
        names_sorted(absorb(acc, f)),
    decreases f.len(),
{
    if f.len() > 0 {
        lemma_absorb_sorted(acc, f.drop_last());
        lemma_put_field(absorb(acc, f.drop_last()), f.last().0, f.last().1);
    }
}

/// The fields of a merged object are in the order of their names, each
/// name once.
pub proof fn lemma_merge_sorted(members: Seq<TypeModel>)
    ensures
        names_sorted(merge(members)),
    decreases members.len(),
{
    if members.len() > 0 {
        lemma_merge_sorted(members.drop_last());
        lemma_absorb_sorted(merge(members.drop_last()), fields_of(members.last()));
    }
}

proof fn lemma_merge_settled(members: Seq<TypeModel>)
    requires
        forall|k: int| 0 <= k < members.len() ==> simplify(#[trigger] members[k]) == members[k],
        all_objects(members),
    ensures
        fields_settled(merge(members)),
{
    let holds = |t: TypeModel| simplify(t) == t;
    assert forall|k: int| 0 <= k < members.len() implies every_field(
        fields_of(#[trigger] members[k]),
        holds,
    ) by {
        let f = fields_of(members[k]);
        assert(members[k] == TypeModel::Object(f));
        assert(simplify(members[k]) == members[k]);
        assert(simplify_fields(f) == f);
        assert forall|i: int| 0 <= i < f.len() implies holds(#[trigger] f[i].1.ty) by {
            assert(simplify_fields(f)[i].1.ty == simplify(f[i].1.ty));
        }
    }
    lemma_merge_every(members, holds);
}

/// Bringing a type into canonical form twice gives what doing it once
/// gives.
pub proof fn lemma_simplify_idempotent(t: TypeModel)
    ensures
        simplify(simplify(t)) == simplify(t),
    decreases t, 1int,
{
    match t {
        TypeModel::Object(f) => {
            let g = simplify_fields(f);
            lemma_fields_idempotent(f);
            assert(simplify_fields(g) =~= g);
        },
        TypeModel::Array(x) => {
            lemma_simplify_idempotent(*x);
        },
        TypeModel::Tuple(s) => {
            let e = simplify_each(s);
            lemma_each_idempotent(s);
            assert(simplify_each(e) =~= e);
        },
        TypeModel::Or(s) => {
            lemma_members_idempotent(s);
        },
        TypeModel::And(s) => {
            lemma_members_idempotent(s);
            let c = canonical(simplify_each(s));
            if all_objects(c) {
                lemma_merge_settled(c);
                let m = merge(c);
                assert(simplify_fields(m) =~= m);
            }
        },
        _ => {},
    }
}

proof fn lemma_each_idempotent(s: Seq<TypeModel>)
    ensures
        forall|i: int|
            0 <= i < s.len() ==> simplify(#[trigger] simplify_each(s)[i]) == simplify_each(s)[i],
    decreases s, 0int,
{
    assert forall|i: int| 0 <= i < s.len() implies simplify(#[trigger] simplify_each(s)[i])
        == simplify_each(s)[i] by {
        lemma_simplify_idempotent(s[i]);
    }
}

proof fn lemma_fields_idempotent(f: Seq<FieldModel>)
    ensures
        fields_settled(simplify_fields(f)),
    decreases f, 0int,
{
    let g = simplify_fields(f);
    assert forall|i: int| 0 <= i < g.len() implies simplify(#[trigger] g[i].1.ty)
        == g[i].1.ty by {
        lemma_simplify_idempotent(f[i].1.ty);
    }
}

/// The canonical member list of a union or an intersection is made of
/// canonical forms, and is its own canonical member list.
proof fn lemma_members_idempotent(s: Seq<TypeModel>)
    ensures
        ({
            let c = canonical(simplify_each(s));
            &&& forall|k: int| 0 <= k < c.len() ==> simplify(#[trigger] c[k]) == c[k]
            &&& simplify_each(c) == c
            &&& canonical(c) == c
        }),
    decreases s, 1int,
{
    let e = simplify_each(s);
    let c = canonical(e);
    lemma_each_idempotent(s);
    lemma_canonical(e);
    assert forall|k: int| 0 <= k < c.len() implies simplify(#[trigger] c[k]) == c[k] by {
        assert(c.contains(c[k]));
        assert(e.contains(c[k]));
        let i = choose|i: int| 0 <= i < e.len() && e[i] == c[k];
        assert(simplify(e[i]) == e[i]);
    }
    assert(simplify_each(c) =~= c);
    lemma_canonical_of_sorted(c);
}

proof fn lemma_each_same_members(s: Seq<TypeModel>, t: Seq<TypeModel>)
    requires
        same_members(s, t),
    ensures
        same_members(simplify_each(s), simplify_each(t)),
{
    let a = simplify_each(s);
    let b = simplify_each(t);
    assert forall|x: TypeModel| a.contains(x) implies b.contains(x) by {
        let i = choose|i: int| 0 <= i < a.len() && a[i] == x;
        assert(s.contains(s[i]));
        let j = choose|j: int| 0 <= j < t.len() && t[j] == s[i];
        assert(b[j] == x);
    }
    assert forall|x: TypeModel| b.contains(x) implies a.contains(x) by {
        let j = choose|j: int| 0 <= j < b.len() && b[j] == x;
        assert(t.contains(t[j]));
        let i = choose|i: int| 0 <= i < s.len() && s[i] == t[j];
        assert(a[i] == x);
    }
}

/// The canonical form of a union depends on which members it has, not on
/// their order nor on how often one is written; so does that of an
/// intersection.
pub proof fn lemma_simplify_same_members(s: Seq<TypeModel>, t: Seq<TypeModel>)
    requires
        same_members(s, t),
    ensures
        simplify(TypeModel::Or(s)) == simplify(TypeModel::Or(t)),
        simplify(TypeModel::And(s)) == simplify(TypeModel::And(t)),
{
    lemma_each_same_members(s, t);
    lemma_canonical_of_same_members(simplify_each(s), simplify_each(t));
}

/// A union written with one member twice and another once has two
/// members in canonical form, whatever the order they were written in,
/// provided that the two have different canonical forms.
pub proof fn lemma_simplify_union_of_two(a: TypeModel, b: TypeModel)
    requires
        simplify(a) != simplify(b),
    ensures
        simplify(TypeModel::Or(seq![a, a, b])) == simplify(TypeModel::Or(seq![a, b])),
        simplify(TypeModel::Or(seq![a, b])) == simplify(TypeModel::Or(seq![b, a])),
        simplify(TypeModel::Or(seq![a, b])) matches TypeModel::Or(m) && m.len() == 2,
{
    let s3 = seq![a, a, b];
    let s2 = seq![a, b];
    let r2 = seq![b, a];
    assert(same_members(s3, s2)) by {
        assert forall|x: TypeModel| s3.contains(x) <==> s2.contains(x) by {
            if s3.contains(x) {
                let i = choose|i: int| 0 <= i < s3.len() && s3[i] == x;
                if i == 0 || i == 1 {
                    assert(s2[0] == x);
                } else {
                    assert(s2[1] == x);
                }
            }
            if s2.contains(x) {
                let i = choose|i: int| 0 <= i < s2.len() && s2[i] == x;
                if i == 0 {
                    assert(s3[0] == x);
                } else {
                    assert(s3[2] == x);
                }
            }
        }
    }
    assert(same_members(s2, r2)) by {
        assert forall|x: TypeModel| s2.contains(x) <==> r2.contains(x) by {
            if s2.contains(x) {
                let i = choose|i: int| 0 <= i < s2.len() && s2[i] == x;
                assert(r2[1 - i] == x);
            }
            if r2.contains(x) {
                let i = choose|i: int| 0 <= i < r2.len() && r2[i] == x;
                assert(s2[1 - i] == x);
            }
        }
    }
    lemma_simplify_same_members(s3, s2);
    lemma_simplify_same_members(s2, r2);
    let x = simplify(a);
    let y = simplify(b);
    let e = simplify_each(s2);
    assert(e =~= seq![x, y]);
    crate::order::lemma_type_order_basic(x, y);
    let pair = if crate::order::type_order(x, y) < 0 {
        seq![x, y]
    } else {
        seq![y, x]
    };
    assert(strictly_sorted(pair));
    assert(same_members(pair, e)) by {
        assert forall|z: TypeModel| pair.contains(z) <==> e.contains(z) by {
            if pair.contains(z) {
                let i = choose|i: int| 0 <= i < pair.len() && pair[i] == z;
                if z == x {
                    assert(e[0] == z);
                } else {
                    assert(e[1] == z);
                }
            }
            if e.contains(z) {
                let i = choose|i: int| 0 <= i < e.len() && e[i] == z;
                if crate::order::type_order(x, y) < 0 {
                    assert(pair[i] == z);
                } else {
                    assert(pair[1 - i] == z);
                }
            }
        }
    }
    lemma_canonical_of_same_members(pair, e);
    lemma_canonical_of_sorted(pair);
}

/// The canonical form of a well-formed type is well-formed.
pub proof fn lemma_simplify_well_formed(t: TypeModel)
    requires
        well_formed(t),
    ensures
        well_formed(simplify(t)),
    decreases t, 1int,
{
    match t {
        TypeModel::Object(f) => {
            let g = simplify_fields(f);
            assert forall|i: int, j: int| 0 <= i < j < g.len() implies crate::text::name_order(
                g[i].0,
                g[j].0,
            ) < 0 by {
                assert(g[i].0 == f[i].0 && g[j].0 == f[j].0);
            }
            assert forall|i: int| 0 <= i < g.len() implies well_formed(#[trigger] g[i].1.ty) by {
                assert(well_formed(f[i].1.ty));
                lemma_simplify_well_formed(f[i].1.ty);
            }
            assert(names_sorted(f));
            assert(names_sorted(g));
            assert(well_formed(TypeModel::Object(g)));
        },
        TypeModel::Array(x) => {
            lemma_simplify_well_formed(*x);
            assert(well_formed(TypeModel::Array(Box::new(simplify(*x)))));
        },
        TypeModel::Tuple(s) => {
            let e = simplify_each(s);
            assert forall|i: int| 0 <= i < e.len() implies well_formed(#[trigger] e[i]) by {
                assert(well_formed(s[i]));
                lemma_simplify_well_formed(s[i]);
            }
            assert(well_formed(TypeModel::Tuple(e)));
        },
        TypeModel::Or(s) => {
            lemma_members_well_formed(s);
            assert(well_formed(TypeModel::Or(canonical(simplify_each(s)))));
        },
        TypeModel::And(s) => {
            lemma_members_well_formed(s);
            let c = canonical(simplify_each(s));
            if all_objects(c) {
                let holds = |t: TypeModel| well_formed(t);
                assert forall|k: int| 0 <= k < c.len() implies every_field(
                    fields_of(#[trigger] c[k]),
                    holds,
                ) by {
                    let f = fields_of(c[k]);
                    assert(c[k] == TypeModel::Object(f));
                    assert(well_formed(c[k]));
                    assert forall|i: int| 0 <= i < f.len() implies holds(#[trigger] f[i].1.ty) by {
                        assert(well_formed(f[i].1.ty));
                    }
                }
                lemma_merge_every(c, holds);
                lemma_merge_sorted(c);
                let m = merge(c);
                assert forall|i: int| 0 <= i < m.len() implies well_formed(
                    #[trigger] m[i].1.ty,
                ) by {
                    assert(holds(m[i].1.ty));
                }
                assert(well_formed(TypeModel::Object(m)));
            } else {
                assert(well_formed(TypeModel::And(c)));
            }
        },
        _ => {},
    }
}

proof fn lemma_members_well_formed(s: Seq<TypeModel>)
    requires
        forall|i: int| 0 <= i < s.len() ==> well_formed(#[trigger] s[i]),
    ensures
        forall|k: int|
            0 <= k < canonical(simplify_each(s)).len() ==> well_formed(
                #[trigger] canonical(simplify_each(s))[k],
            ),
    decreases s, 0int,
{
    let e = simplify_each(s);
    let c = canonical(e);
    lemma_canonical(e);
    assert forall|k: int| 0 <= k < c.len() implies well_formed(#[trigger] c[k]) by {
        assert(c.contains(c[k]));
        assert(e.contains(c[k]));
        let i = choose|i: int| 0 <= i < e.len() && e[i] == c[k];
        assert(well_formed(s[i]));
        lemma_simplify_well_formed(s[i]);
    }
}

} // verus!
