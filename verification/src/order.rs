//! A total order on types: first by the kind of a type, then by what it
//! holds, names by `name_order` and sequences position by position.

use vstd::prelude::*;
use crate::text::{
    compare_names, lemma_name_order_chain, lemma_name_order_flip, lemma_name_order_zero,
    name_order,
};
use crate::types::{fields_view, types_view, Field, FieldModel, Type, TypeModel};

verus! {

broadcast use {vstd::seq::group_seq_axioms, vstd::std_specs::vec::group_vec_axioms};

/// The place of a kind of type among the kinds.
pub open spec fn rank(t: TypeModel) -> int {
    match t {
        TypeModel::Reference(_) => 0,
        TypeModel::Object(_) => 1,
        TypeModel::Array(_) => 2,
        TypeModel::Tuple(_) => 3,
        TypeModel::Or(_) => 4,
        TypeModel::And(_) => 5,
        TypeModel::Number => 6,
        TypeModel::Ident(_) => 7,
        TypeModel::String => 8,
        TypeModel::Boolean => 9,
    }
}

/// Compares two types: `-1` where `a` comes first, `1` where `b` does,
/// `0` where they are the same type.
pub open spec fn type_order(a: TypeModel, b: TypeModel) -> int
    decreases a, 0int,
{
    if rank(a) < rank(b) {
        -1
    } else if rank(a) > rank(b) {
        1
    } else {
        match (a, b) {
            (TypeModel::Reference(x), TypeModel::Reference(y)) => name_order(x, y),
            (TypeModel::Object(f), TypeModel::Object(g)) => fields_order_from(f, g, 0),
            (TypeModel::Array(x), TypeModel::Array(y)) => type_order(*x, *y),
            (TypeModel::Tuple(s), TypeModel::Tuple(t)) => types_order_from(s, t, 0),
            (TypeModel::Or(s), TypeModel::Or(t)) => types_order_from(s, t, 0),
            (TypeModel::And(s), TypeModel::And(t)) => types_order_from(s, t, 0),
            (TypeModel::Ident(x), TypeModel::Ident(y)) => name_order(x, y),
            _ => 0,
        }
    }
}

/// Compares two sequences of types from position `i` on; a proper prefix
/// comes before what it is a prefix of.
pub open spec fn types_order_from(s: Seq<TypeModel>, t: Seq<TypeModel>, i: int) -> int
    decreases s, s.len() - i,
{
    if i < 0 {
        0
    } else if i >= s.len() {
        if i >= t.len() {
            0
        } else {
            -1
        }
    } else if i >= t.len() {
        1
    } else {
        let c = type_order(s[i], t[i]);
        if c != 0 {
            c
        } else {
            types_order_from(s, t, i + 1)
        }
    }
}

/// Compares two fields: by name, then by type, then a required field
/// before an optional one.
pub open spec fn field_order(f: FieldModel, g: FieldModel) -> int
    decreases f, 0int,
{
    let n = name_order(f.0, g.0);
    if n != 0 {
        n
    } else {
        let c = type_order(f.1.ty, g.1.ty);
        if c != 0 {
            c
        } else if f.1.optional == g.1.optional {
            0
        } else if g.1.optional {
            -1
        } else {
            1
        }
    }
}

/// Compares two sequences of fields from position `i` on.
pub open spec fn fields_order_from(
    f: Seq<FieldModel>,
    g: Seq<FieldModel>,
    i: int,
) -> int
    decreases f, f.len() - i,
{
    if i < 0 {
        0
    } else if i >= f.len() {
        if i >= g.len() {
            0
        } else {
            -1
        }
    } else if i >= g.len() {
        1
    } else {
        let c = field_order(f[i], g[i]);
        if c != 0 {
            c
        } else {
            fields_order_from(f, g, i + 1)
        }
    }
}

/// `type_order` takes the values `-1`, `0` and `1`; exchanging the two
/// types negates it; and it is `0` on equal types only.
pub proof fn lemma_type_order_basic(a: TypeModel, b: TypeModel)
    ensures
        -1 <= type_order(a, b) <= 1,
        type_order(b, a) == -type_order(a, b),
        type_order(a, b) == 0 ==> a == b,
    decreases a, 0int,
{
    if rank(a) == rank(b) {
        match (a, b) {
            (TypeModel::Reference(x), TypeModel::Reference(y)) => {
                lemma_name_order_zero(x, y);
                lemma_name_order_flip(x, y);
            },
            (TypeModel::Object(f), TypeModel::Object(g)) => {
                lemma_fields_order_basic(f, g, 0);
                if type_order(a, b) == 0 {
                    assert(f =~= g);
                }
            },
            (TypeModel::Array(x), TypeModel::Array(y)) => {
                lemma_type_order_basic(*x, *y);
            },
            (TypeModel::Tuple(s), TypeModel::Tuple(t)) => {
                lemma_types_order_basic(s, t, 0);
                if type_order(a, b) == 0 {
                    assert(s =~= t);
                }
            },
            (TypeModel::Or(s), TypeModel::Or(t)) => {
                lemma_types_order_basic(s, t, 0);
                if type_order(a, b) == 0 {
                    assert(s =~= t);
                }
            },
            (TypeModel::And(s), TypeModel::And(t)) => {
                lemma_types_order_basic(s, t, 0);
                if type_order(a, b) == 0 {
                    assert(s =~= t);
                }
            },
            (TypeModel::Ident(x), TypeModel::Ident(y)) => {
                lemma_name_order_zero(x, y);
                lemma_name_order_flip(x, y);
            },
            _ => {},
        }
    }
}

proof fn lemma_types_order_basic(s: Seq<TypeModel>, t: Seq<TypeModel>, i: int)
    requires
        0 <= i <= s.len(),
        i <= t.len(),
    ensures
        -1 <= types_order_from(s, t, i) <= 1,
        types_order_from(t, s, i) == -types_order_from(s, t, i),
        types_order_from(s, t, i) == 0 ==> s.len() == t.len() && forall|j: int|
            i <= j < s.len() ==> s[j] == t[j],
    decreases s, s.len() - i,
{
    if i < s.len() && i < t.len() {
        lemma_type_order_basic(s[i], t[i]);
        if type_order(s[i], t[i]) == 0 {
            lemma_types_order_basic(s, t, i + 1);
        }
    }
}

proof fn lemma_field_order_basic(f: FieldModel, g: FieldModel)
    ensures
        -1 <= field_order(f, g) <= 1,
        field_order(g, f) == -field_order(f, g),
        field_order(f, g) == 0 ==> f == g,
    decreases f, 0int,
{
    lemma_name_order_zero(f.0, g.0);
    lemma_name_order_flip(f.0, g.0);
    lemma_type_order_basic(f.1.ty, g.1.ty);
}

proof fn lemma_fields_order_basic(
    f: Seq<FieldModel>,
    g: Seq<FieldModel>,
    i: int,
)
    requires
        0 <= i <= f.len(),
        i <= g.len(),
    ensures
        -1 <= fields_order_from(f, g, i) <= 1,
        fields_order_from(g, f, i) == -fields_order_from(f, g, i),
        fields_order_from(f, g, i) == 0 ==> f.len() == g.len() && forall|j: int|
            i <= j < f.len() ==> f[j] == g[j],
    decreases f, f.len() - i,
{
    if i < f.len() && i < g.len() {
        lemma_field_order_basic(f[i], g[i]);
        if field_order(f[i], g[i]) == 0 {
            lemma_fields_order_basic(f, g, i + 1);
        }
    }
}

/// A type compares as equal to itself.
pub proof fn lemma_type_order_same(a: TypeModel)
    ensures
        type_order(a, a) == 0,
    decreases a, 0int,
{
    match a {
        TypeModel::Reference(x) => {
            lemma_name_order_zero(x, x);
        },
        TypeModel::Object(f) => {
            lemma_fields_order_same(f, 0);
        },
        TypeModel::Array(x) => {
            lemma_type_order_same(*x);
        },
        TypeModel::Tuple(s) => {
            lemma_types_order_same(s, 0);
        },
        TypeModel::Or(s) => {
            lemma_types_order_same(s, 0);
        },
        TypeModel::And(s) => {
            lemma_types_order_same(s, 0);
        },
        TypeModel::Ident(x) => {
            lemma_name_order_zero(x, x);
        },
        _ => {},
    }
}

proof fn lemma_types_order_same(s: Seq<TypeModel>, i: int)
    ensures
        types_order_from(s, s, i) == 0,
    decreases s, s.len() - i,
{
    if 0 <= i < s.len() {
        lemma_type_order_same(s[i]);
        lemma_types_order_same(s, i + 1);
    }
}

proof fn lemma_fields_order_same(f: Seq<FieldModel>, i: int)
    ensures
        fields_order_from(f, f, i) == 0,
    decreases f, f.len() - i,
{
    if 0 <= i < f.len() {
        lemma_name_order_zero(f[i].0, f[i].0);
        lemma_type_order_same(f[i].1.ty);
        assert(field_order(f[i], f[i]) == 0);
        lemma_fields_order_same(f, i + 1);
    }
}

/// `type_order` is transitive, and strictly so where one step is strict.
pub proof fn lemma_type_order_chain(a: TypeModel, b: TypeModel, c: TypeModel)
    requires
        type_order(a, b) <= 0,
        type_order(b, c) <= 0,
    ensures
        type_order(a, c) <= 0,
        type_order(a, c) == 0 ==> type_order(a, b) == 0 && type_order(b, c) == 0,
    decreases a, 0int,
{
    if rank(a) == rank(b) && rank(b) == rank(c) {
        match (a, b, c) {
            (TypeModel::Reference(x), TypeModel::Reference(y), TypeModel::Reference(z)) => {
                lemma_name_order_chain(x, y, z);
            },
            (TypeModel::Object(f), TypeModel::Object(g), TypeModel::Object(h)) => {
                lemma_fields_order_chain(f, g, h, 0);
            },
            (TypeModel::Array(x), TypeModel::Array(y), TypeModel::Array(z)) => {
                lemma_type_order_chain(*x, *y, *z);
            },
            (TypeModel::Tuple(s), TypeModel::Tuple(t), TypeModel::Tuple(u)) => {
                lemma_types_order_chain(s, t, u, 0);
            },
            (TypeModel::Or(s), TypeModel::Or(t), TypeModel::Or(u)) => {
                lemma_types_order_chain(s, t, u, 0);
            },
            (TypeModel::And(s), TypeModel::And(t), TypeModel::And(u)) => {
                lemma_types_order_chain(s, t, u, 0);
            },
            (TypeModel::Ident(x), TypeModel::Ident(y), TypeModel::Ident(z)) => {
                lemma_name_order_chain(x, y, z);
            },
            _ => {},
        }
    }
}

proof fn lemma_types_order_chain(
    s: Seq<TypeModel>,
    t: Seq<TypeModel>,
    u: Seq<TypeModel>,
    i: int,
)
    requires
        0 <= i,
        types_order_from(s, t, i) <= 0,
        types_order_from(t, u, i) <= 0,
    ensures
        types_order_from(s, u, i) <= 0,
        types_order_from(s, u, i) == 0 ==> types_order_from(s, t, i) == 0 && types_order_from(
            t,
            u,
            i,
        ) == 0,
    decreases s, s.len() - i,
{
    if i < s.len() && i < t.len() && i < u.len() {
        lemma_type_order_basic(s[i], t[i]);
        lemma_type_order_basic(t[i], u[i]);
        lemma_type_order_basic(s[i], u[i]);
        lemma_type_order_chain(s[i], t[i], u[i]);
        if type_order(s[i], t[i]) == 0 && type_order(t[i], u[i]) == 0 {
            lemma_types_order_chain(s, t, u, i + 1);
        }
    }
}

proof fn lemma_field_order_chain(
    f: FieldModel,
    g: FieldModel,
    h: FieldModel,
)
    requires
        field_order(f, g) <= 0,
        field_order(g, h) <= 0,
    ensures
        field_order(f, h) <= 0,
        field_order(f, h) == 0 ==> field_order(f, g) == 0 && field_order(g, h) == 0,
    decreases f, 0int,
{
    lemma_name_order_zero(f.0, g.0);
    lemma_name_order_zero(g.0, h.0);
    lemma_name_order_zero(f.0, h.0);
    lemma_name_order_chain(f.0, g.0, h.0);
    if name_order(f.0, g.0) == 0 && name_order(g.0, h.0) == 0 {
        lemma_type_order_basic(f.1.ty, g.1.ty);
        lemma_type_order_basic(g.1.ty, h.1.ty);
        lemma_type_order_basic(f.1.ty, h.1.ty);
        lemma_type_order_chain(f.1.ty, g.1.ty, h.1.ty);
    }
}

proof fn lemma_fields_order_chain(
    f: Seq<FieldModel>,
    g: Seq<FieldModel>,
    h: Seq<FieldModel>,
    i: int,
)
    requires
        0 <= i,
        fields_order_from(f, g, i) <= 0,
        fields_order_from(g, h, i) <= 0,
    ensures
        fields_order_from(f, h, i) <= 0,
        fields_order_from(f, h, i) == 0 ==> fields_order_from(f, g, i) == 0 && fields_order_from(
            g,
            h,
            i,
        ) == 0,
    decreases f, f.len() - i,
{
    if i < f.len() && i < g.len() && i < h.len() {
        lemma_field_order_basic(f[i], g[i]);
        lemma_field_order_basic(g[i], h[i]);
        lemma_field_order_basic(f[i], h[i]);
        lemma_field_order_chain(f[i], g[i], h[i]);
        if field_order(f[i], g[i]) == 0 && field_order(g[i], h[i]) == 0 {
            lemma_fields_order_chain(f, g, h, i + 1);
        }
    }
}

fn kind_rank(t: &Type) -> (r: u8)
    ensures
        r == rank(t@),
{
    match t {
        Type::Reference(_) => 0,
        Type::Object(_) => 1,
        Type::Array(_) => 2,
        Type::Tuple(_) => 3,
        Type::Or(_) => 4,
        Type::And(_) => 5,
        Type::Number => 6,
        Type::Ident(_) => 7,
        Type::String => 8,
        Type::Boolean => 9,
    }
}

/// Compares two types by `type_order`.
pub fn compare_types(a: &Type, b: &Type) -> (r: i8)
    ensures
        r == type_order(a@, b@),
    decreases a, 1int,
{
    let ra = kind_rank(a);
    let rb = kind_rank(b);
    if ra < rb {
        return -1;
    }
    if ra > rb {
        return 1;
    }
    match (a, b) {
        (Type::Reference(x), Type::Reference(y)) => compare_names(x.as_str(), y.as_str()),
        (Type::Object(f), Type::Object(g)) => compare_field_lists(f, g),
        (Type::Array(x), Type::Array(y)) => compare_types(x, y),
        (Type::Tuple(s), Type::Tuple(t)) => compare_type_lists(s, t),
        (Type::Or(s), Type::Or(t)) => compare_type_lists(s, t),
        (Type::And(s), Type::And(t)) => compare_type_lists(s, t),
        (Type::Ident(x), Type::Ident(y)) => compare_names(x.as_str(), y.as_str()),
        _ => 0,
    }
}

fn compare_type_lists(s: &Vec<Type>, t: &Vec<Type>) -> (r: i8)
    ensures
        r == types_order_from(types_view(s), types_view(t), 0),
    decreases s, 0int,
{
    let mut i: usize = 0;
    while i < s.len() && i < t.len()
        invariant
            i <= s.len(),
            i <= t.len(),
            types_order_from(types_view(s), types_view(t), 0) == types_order_from(
                types_view(s),
                types_view(t),
                i as int,
            ),
        decreases s.len() - i,
    {
        let c = compare_types(&s[i], &t[i]);
        if c != 0 {
            return c;
        }
        i = i + 1;
    }
    if i < t.len() {
        -1
    } else if i < s.len() {
        1
    } else {
        0
    }
}

fn compare_field_lists(f: &Vec<Field>, g: &Vec<Field>) -> (r: i8)
    ensures
        r == fields_order_from(fields_view(f), fields_view(g), 0),
    decreases f, 0int,
{
    let mut i: usize = 0;
    while i < f.len() && i < g.len()
        invariant
            i <= f.len(),
            i <= g.len(),
            fields_order_from(fields_view(f), fields_view(g), 0) == fields_order_from(
                fields_view(f),
                fields_view(g),
                i as int,
            ),
        decreases f.len() - i,
    {
        let ghost x = fields_view(f)[i as int];
        let ghost y = fields_view(g)[i as int];
        let n = compare_names(f[i].0.as_str(), g[i].0.as_str());
        if n != 0 {
            assert(field_order(x, y) == n);
            return n;
        }
        let c = compare_types(&f[i].1.ty, &g[i].1.ty);
        if c != 0 {
            assert(field_order(x, y) == c);
            return c;
        }
        assert(field_order(x, y) == if f[i as int].1.optional == g[i as int].1.optional {
            0int
        } else if g[i as int].1.optional {
            -1
        } else {
            1
        });
        if f[i].1.optional != g[i].1.optional {
            if g[i].1.optional {
                return -1;
            } else {
                return 1;
            }
        }
        i = i + 1;
    }
    if i < g.len() {
        -1
    } else if i < f.len() {
        1
    } else {
        0
    }
}

} // verus!
