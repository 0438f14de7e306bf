//! The fields of an object: a list ordered by name, each name once.

use vstd::prelude::*;
use crate::text::{compare_names, lemma_name_order_chain, lemma_name_order_zero, name_order};
use crate::types::{fields_view, Field, FieldModel, Property, PropertyModel, Type, TypeModel};

verus! {

broadcast use {vstd::seq::group_seq_axioms, vstd::std_specs::vec::group_vec_axioms};

/// Each field's name comes before all later ones, so that none occurs
/// twice.
pub open spec fn names_sorted(s: Seq<FieldModel>) -> bool {
    forall|i: int, j: int| 0 <= i < j < s.len() ==> name_order(s[i].0, s[j].0) < 0
}

/// The property that a field list gives to a name, if any.
pub open spec fn field_of(s: Seq<FieldModel>, name: Seq<char>) -> Option<
    PropertyModel,
>
    decreases s.len(),
{
    if s.len() == 0 {
        None
    } else if s.last().0 == name {
        Some(s.last().1)
    } else {
        field_of(s.drop_last(), name)
    }
}

/// What a field holds after a second property arrives for its name: the
/// later one, except that a string literal stays where the later one is
/// plain `String`.
pub open spec fn settle(earlier: PropertyModel, later: PropertyModel) -> PropertyModel {
    if earlier.ty is Ident && later.ty is String {
        earlier
    } else {
        later
    }
}

/// `s` with the field `name` set to `p`, at its place in the order of
/// names; where `s` has the name already, the two properties are settled.
pub open spec fn put_field(s: Seq<FieldModel>, name: Seq<char>, p: PropertyModel) -> Seq<
    FieldModel,
>
    decreases s.len(),
{
    if s.len() == 0 {
        seq![(name, p)]
    } else if name_order(s.last().0, name) < 0 {
        s.push((name, p))
    } else if name_order(s.last().0, name) == 0 {
        s.drop_last().push((name, settle(s.last().1, p)))
    } else {
        put_field(s.drop_last(), name, p).push(s.last())
    }
}

proof fn lemma_drop_last_sorted(s: Seq<FieldModel>)
    requires
        names_sorted(s),
        s.len() > 0,
    ensures
        names_sorted(s.drop_last()),
        forall|m: Seq<char>| #[trigger]
            field_of(s.drop_last(), m) is Some ==> name_order(m, s.last().0) < 0,
    decreases s.len(),
{
    let p = s.drop_last();
    assert forall|i: int, j: int| 0 <= i < j < p.len() implies name_order(p[i].0, p[j].0) < 0 by {
        assert(p[i] == s[i] && p[j] == s[j]);
    }
    if p.len() > 0 {
        lemma_drop_last_sorted(p);
        assert(p.last() == s[s.len() - 2]);
        assert forall|m: Seq<char>| #[trigger] field_of(p, m) is Some implies name_order(
            m,
            s.last().0,
        ) < 0 by {
            if p.last().0 == m {
            } else {
                assert(field_of(p.drop_last(), m) is Some);
                lemma_name_order_chain(m, p.last().0, s.last().0);
            }
        }
    }
}

/// On a list ordered by name, `put_field` keeps the order, sets the one
/// field and leaves the others as they were.
pub proof fn lemma_put_field(s: Seq<FieldModel>, name: Seq<char>, p: PropertyModel)
    requires
        names_sorted(s),
    ensures
        names_sorted(put_field(s, name, p)),
        field_of(put_field(s, name, p), name) == Some(
            match field_of(s, name) {
                Some(earlier) => settle(earlier, p),
                None => p,
            },
        ),
        forall|m: Seq<char>|
            m != name ==> #[trigger] field_of(put_field(s, name, p), m) == field_of(s, m),
        put_field(s, name, p).len() > 0,
        name_order(put_field(s, name, p).last().0, name) >= 0,
        s.len() > 0 && name_order(s.last().0, name) >= 0 ==> put_field(s, name, p).last().0
            == s.last().0,
    decreases s.len(),
{
    let r = put_field(s, name, p);
    lemma_name_order_zero(name, name);
    if s.len() == 0 {
        assert(r.drop_last() =~= s);
    } else if name_order(s.last().0, name) > 0 {
        let q = s.drop_last();
        let t = put_field(q, name, p);
        lemma_put_field(q, name, p);
        assert(r.drop_last() =~= t);
        assert(r.last() == s.last());
        assert forall|m: Seq<char>| m != name implies #[trigger] field_of(r, m) == field_of(
            s,
            m,
        ) by {
            if s.last().0 != m {
                assert(field_of(r, m) == field_of(t, m));
                assert(field_of(t, m) == field_of(q, m));
            }
        }
    }
    if s.len() == 0 {
    } else {
        let q = s.drop_last();
        lemma_drop_last_sorted(s);
        lemma_name_order_zero(s.last().0, name);
        if name_order(s.last().0, name) < 0 {
            assert(r.drop_last() =~= s);
            assert forall|i: int, j: int| 0 <= i < j < r.len() implies name_order(
                r[i].0,
                r[j].0,
            ) < 0 by {
                if j == s.len() && i < s.len() - 1 {
                    lemma_name_order_chain(s[i].0, s.last().0, name);
                }
            }
            if field_of(s, name) is Some {
                if field_of(q, name) is Some {
                    lemma_name_order_zero(name, s.last().0);
                    crate::text::lemma_name_order_flip(name, s.last().0);
                }
            }
        } else if name_order(s.last().0, name) == 0 {
            assert(r.drop_last() =~= q);
            assert forall|i: int, j: int| 0 <= i < j < r.len() implies name_order(
                r[i].0,
                r[j].0,
            ) < 0 by {
                if j == r.len() - 1 {
                    assert(r[i] == s[i]);
                }
            }
        } else {
            let t = put_field(q, name, p);
            lemma_put_field(q, name, p);
            assert(r.drop_last() =~= t);
            assert forall|i: int, j: int| 0 <= i < j < r.len() implies name_order(
                r[i].0,
                r[j].0,
            ) < 0 by {
                if j == t.len() {
                    crate::text::lemma_name_order_flip(s.last().0, name);
                    lemma_name_order_zero(name, s.last().0);
                    if q.len() > 0 && name_order(q.last().0, name) >= 0 {
                        assert(t.last().0 == q.last().0);
                        assert(q.last() == s[s.len() - 2]);
                        if i < t.len() - 1 {
                            lemma_name_order_chain(t[i].0, t.last().0, s.last().0);
                        }
                    } else {
                        // the new field is the last of `t`
                        assert(t.last().0 == name) by {
                            if q.len() == 0 {
                            } else {
                                assert(name_order(q.last().0, name) < 0);
                            }
                        }
                        if i < t.len() - 1 {
                            lemma_name_order_chain(t[i].0, t.last().0, s.last().0);
                        }
                    }
                } else {
                    assert(r[i] == t[i] && r[j] == t[j]);
                }
            }
        }
    }
}

/// Where `put_field` sets the field: after the `j` first fields, none of
/// the later ones having a name smaller than or equal to `name`.
proof fn lemma_put_position(
    s: Seq<FieldModel>,
    name: Seq<char>,
    p: PropertyModel,
    j: int,
)
    requires
        0 <= j <= s.len(),
        forall|k: int| j <= k < s.len() ==> name_order(s[k].0, name) > 0,
        j > 0 ==> name_order(s[j - 1].0, name) <= 0,
    ensures
        put_field(s, name, p) == if j > 0 && name_order(s[j - 1].0, name) == 0 {
            s.update(j - 1, (name, settle(s[j - 1].1, p)))
        } else {
            s.insert(j, (name, p))
        },
    decreases s.len() - j,
{
    if j == s.len() {
        if s.len() == 0 {
            assert(seq![(name, p)] =~= s.insert(j, (name, p)));
        } else if name_order(s.last().0, name) < 0 {
            assert(s.push((name, p)) =~= s.insert(j, (name, p)));
        } else {
            assert(s.drop_last().push((name, settle(s.last().1, p))) =~= s.update(
                j - 1,
                (name, settle(s[j - 1].1, p)),
            ));
        }
    } else {
        let q = s.drop_last();
        assert(name_order(s[s.len() - 1].0, name) > 0);
        assert forall|k: int| j <= k < q.len() implies name_order(q[k].0, name) > 0 by {
            assert(q[k] == s[k]);
        }
        if j > 0 {
            assert(q[j - 1] == s[j - 1]);
        }
        lemma_put_position(q, name, p, j);
        if j > 0 && name_order(s[j - 1].0, name) == 0 {
            assert(q.update(j - 1, (name, settle(s[j - 1].1, p))).push(s.last()) =~= s.update(
                j - 1,
                (name, settle(s[j - 1].1, p)),
            ));
        } else {
            assert(q.insert(j, (name, p)).push(s.last()) =~= s.insert(j, (name, p)));
        }
    }
}

fn is_ident(t: &Type) -> (r: bool)
    ensures
        r == (t@ is Ident),
{
    match t {
        Type::Ident(_) => true,
        _ => false,
    }
}

fn is_string(t: &Type) -> (r: bool)
    ensures
        r == (t@ is String),
{
    match t {
        Type::String => true,
        _ => false,
    }
}

/// Sets a field in a field list as `put_field` says.
pub fn put_field_into(fields: &mut Vec<Field>, name: String, prop: Property)
    ensures
        fields_view(final(fields)) == put_field(fields_view(old(fields)), name@, prop@),
{
    let mut j: usize = fields.len();
    while j > 0 && compare_names(fields[j - 1].0.as_str(), name.as_str()) > 0
        invariant
            j <= fields.len(),
            *fields == *old(fields),
            forall|k: int|
                j <= k < fields.len() ==> name_order(fields_view(fields)[k].0, name@) > 0,
        decreases j,
    {
        j = j - 1;
    }
    let ghost s = fields_view(fields);
    proof {
        lemma_put_position(s, name@, prop@, j as int);
    }
    if j > 0 && compare_names(fields[j - 1].0.as_str(), name.as_str()) == 0 {
        proof {
            lemma_name_order_zero(s[j - 1].0, name@);
        }
        if is_ident(&fields[j - 1].1.ty) && is_string(&prop.ty) {
            assert(s =~= s.update(j - 1, (name@, settle(s[j - 1].1, prop@))));
        } else {
            fields.remove(j - 1);
            fields.insert(j - 1, (name, prop));
            assert(fields_view(fields) =~= s.update(j - 1, (name@, settle(s[j - 1].1, prop@))));
        }
    } else {
        fields.insert(j, (name, prop));
        assert(fields_view(fields) =~= s.insert(j as int, (name@, prop@)));
    }
}

/// `holds` is true of the type of every field.
pub open spec fn every_field(s: Seq<FieldModel>, holds: spec_fn(TypeModel) -> bool) -> bool {
    forall|i: int| 0 <= i < s.len() ==> holds(#[trigger] s[i].1.ty)
}

/// What holds of the type of every field of a list and of the type of a
/// new field holds of the type of every field after `put_field`.
pub proof fn lemma_put_field_every(
    s: Seq<FieldModel>,
    name: Seq<char>,
    p: PropertyModel,
    holds: spec_fn(TypeModel) -> bool,
)
    requires
        every_field(s, holds),
        holds(p.ty),
    ensures
        every_field(put_field(s, name, p), holds),
    decreases s.len(),
{
    let r = put_field(s, name, p);
    if s.len() > 0 && name_order(s.last().0, name) > 0 {
        let q = s.drop_last();
        assert forall|i: int| 0 <= i < q.len() implies holds(#[trigger] q[i].1.ty) by {
            assert(q[i] == s[i]);
        }
        lemma_put_field_every(q, name, p, holds);
        let t = put_field(q, name, p);
        assert forall|i: int| 0 <= i < r.len() implies holds(#[trigger] r[i].1.ty) by {
            if i < t.len() {
                assert(r[i] == t[i]);
            } else {
                assert(r[i] == s[s.len() - 1]);
            }
        }
    } else {
        assert forall|i: int| 0 <= i < r.len() implies holds(#[trigger] r[i].1.ty) by {
            if i < s.len() {
                assert(holds(s[i].1.ty));
            }
        }
    }
}

/// Every object of a type has its fields in the order of their names,
/// each name once.
pub open spec fn well_formed(t: TypeModel) -> bool
    decreases t,
{
    match t {
        TypeModel::Object(f) => names_sorted(f) && forall|i: int|
            0 <= i < f.len() ==> well_formed(#[trigger] f[i].1.ty),
        TypeModel::Array(x) => well_formed(*x),
        TypeModel::Tuple(s) => forall|i: int| 0 <= i < s.len() ==> well_formed(#[trigger] s[i]),
        TypeModel::Or(s) => forall|i: int| 0 <= i < s.len() ==> well_formed(#[trigger] s[i]),
        TypeModel::And(s) => forall|i: int| 0 <= i < s.len() ==> well_formed(#[trigger] s[i]),
        _ => true,
    }
}

/// A field list that is in the order of its names, with well-formed
/// types.
pub open spec fn fields_well_formed(f: Seq<FieldModel>) -> bool {
    names_sorted(f) && every_field(f, |t: TypeModel| well_formed(t))
}

/// `put_field` keeps a field list well-formed.
pub proof fn lemma_put_field_well_formed(
    s: Seq<FieldModel>,
    name: Seq<char>,
    p: PropertyModel,
)
    requires
        fields_well_formed(s),
        well_formed(p.ty),
    ensures
        fields_well_formed(put_field(s, name, p)),
{
    lemma_put_field(s, name, p);
    lemma_put_field_every(s, name, p, |t: TypeModel| well_formed(t));
}

} // verus!
