//! Member lists in canonical form: each member once, in ascending
//! `type_order`.

use vstd::prelude::*;
use crate::order::{
    compare_types, lemma_type_order_basic, lemma_type_order_chain, lemma_type_order_same,
    type_order,
};
use crate::types::{types_view, Type, TypeModel};

verus! {

broadcast use {vstd::seq::group_seq_axioms, vstd::std_specs::vec::group_vec_axioms};

/// Each member comes before all later ones, so that none occurs twice.
pub open spec fn strictly_sorted(s: Seq<TypeModel>) -> bool {
    forall|i: int, j: int| 0 <= i < j < s.len() ==> type_order(s[i], s[j]) < 0
}

/// `a` and `b` have the same members, whatever their order and number.
pub open spec fn same_members(a: Seq<TypeModel>, b: Seq<TypeModel>) -> bool {
    forall|x: TypeModel|
        #![trigger a.contains(x)]
        #![trigger b.contains(x)]
        a.contains(x) <==> b.contains(x)
}

/// `s` with `x` put where it belongs in the order, unless `s` ends its
/// smaller members with `x` itself.
pub open spec fn insert_member(s: Seq<TypeModel>, x: TypeModel) -> Seq<TypeModel>
    decreases s.len(),
{
    if s.len() == 0 {
        seq![x]
    } else if type_order(s.last(), x) < 0 {
        s.push(x)
    } else if type_order(s.last(), x) == 0 {
        s
    } else {
        insert_member(s.drop_last(), x).push(s.last())
    }
}

/// The canonical form of a member list: its members, each once, in
/// ascending order.
pub open spec fn canonical(s: Seq<TypeModel>) -> Seq<TypeModel>
    decreases s.len(),
{
    if s.len() == 0 {
        Seq::empty()
    } else {
        insert_member(canonical(s.drop_last()), s.last())
    }
}

/// `insert_member` adds the one member and keeps a strictly sorted list
/// strictly sorted.
pub proof fn lemma_insert_member(s: Seq<TypeModel>, x: TypeModel)
    ensures
        forall|y: TypeModel|
            #![trigger insert_member(s, x).contains(y)]
            #![trigger s.contains(y)]
            insert_member(s, x).contains(y) <==> (y == x || s.contains(y)),
        strictly_sorted(s) ==> strictly_sorted(insert_member(s, x)),
        insert_member(s, x).len() > 0,
        type_order(insert_member(s, x).last(), x) >= 0,
        s.len() > 0 && type_order(s.last(), x) >= 0 ==> insert_member(s, x).last() == s.last(),
    decreases s.len(),
{
    let r = insert_member(s, x);
    lemma_type_order_same(x);
    if s.len() == 0 {
        assert(r[0] == x);
        assert forall|y: TypeModel| r.contains(y) <==> (y == x || s.contains(y)) by {
            if r.contains(y) {
                let k = choose|k: int| 0 <= k < r.len() && r[k] == y;
            }
        }
    } else if type_order(s.last(), x) < 0 {
        assert forall|y: TypeModel| r.contains(y) <==> (y == x || s.contains(y)) by {
            if r.contains(y) {
                let k = choose|k: int| 0 <= k < r.len() && r[k] == y;
                if k < s.len() {
                    assert(s[k] == y);
                }
            }
            if y == x {
                assert(r[s.len() as int] == y);
            }
            if s.contains(y) {
                let k = choose|k: int| 0 <= k < s.len() && s[k] == y;
                assert(r[k] == y);
            }
        }
        if strictly_sorted(s) {
            assert forall|i: int, j: int| 0 <= i < j < r.len() implies type_order(r[i], r[j])
                < 0 by {
                if j == s.len() && i < s.len() - 1 {
                    lemma_type_order_chain(s[i], s.last(), x);
                }
            }
        }
    } else if type_order(s.last(), x) == 0 {
        lemma_type_order_basic(s.last(), x);
        assert(s[s.len() - 1] == x);
    } else {
        let p = s.drop_last();
        let q = insert_member(p, x);
        lemma_insert_member(p, x);
        lemma_type_order_basic(s.last(), x);
        assert forall|y: TypeModel| r.contains(y) <==> (y == x || s.contains(y)) by {
            if r.contains(y) {
                let k = choose|k: int| 0 <= k < r.len() && r[k] == y;
                if k < q.len() {
                    assert(q.contains(y));
                    if p.contains(y) {
                        let m = choose|m: int| 0 <= m < p.len() && p[m] == y;
                        assert(s[m] == y);
                    }
                } else {
                    assert(s[s.len() - 1] == y);
                }
            }
            if y == x || s.contains(y) {
                if y == x {
                    assert(q.contains(y));
                } else {
                    let m = choose|m: int| 0 <= m < s.len() && s[m] == y;
                    if m < p.len() {
                        assert(p[m] == y);
                        assert(q.contains(y));
                    }
                }
                if q.contains(y) {
                    let k = choose|k: int| 0 <= k < q.len() && q[k] == y;
                    assert(r[k] == y);
                } else {
                    assert(r[q.len() as int] == y);
                }
            }
        }
        if strictly_sorted(s) {
            assert(strictly_sorted(p)) by {
                assert forall|i: int, j: int| 0 <= i < j < p.len() implies type_order(p[i], p[j])
                    < 0 by {
                    assert(p[i] == s[i] && p[j] == s[j]);
                }
            }
            assert forall|i: int, j: int| 0 <= i < j < r.len() implies type_order(r[i], r[j])
                < 0 by {
                if j == q.len() {
                    assert(q.contains(q[i]));
                    if q[i] == x {
                    } else {
                        let m = choose|m: int| 0 <= m < p.len() && p[m] == q[i];
                        assert(s[m] == q[i]);
                    }
                } else {
                    assert(r[i] == q[i] && r[j] == q[j]);
                }
            }
        }
    }
}

/// The canonical form is strictly sorted and has the members of the list
/// it was made from.
pub proof fn lemma_canonical(s: Seq<TypeModel>)
    ensures
        strictly_sorted(canonical(s)),
        same_members(canonical(s), s),
    decreases s.len(),
{
    if s.len() > 0 {
        let p = s.drop_last();
        lemma_canonical(p);
        lemma_insert_member(canonical(p), s.last());
        assert forall|x: TypeModel| canonical(s).contains(x) <==> s.contains(x) by {
            if s.contains(x) {
                let k = choose|k: int| 0 <= k < s.len() && s[k] == x;
                if k < p.len() {
                    assert(p[k] == x);
                }
            }
            if p.contains(x) {
                let k = choose|k: int| 0 <= k < p.len() && p[k] == x;
                assert(s[k] == x);
            }
            if x == s.last() {
                assert(s[s.len() - 1] == x);
            }
        }
    } else {
        assert forall|x: TypeModel| canonical(s).contains(x) <==> s.contains(x) by {
            if canonical(s).contains(x) {
                let k = choose|k: int| 0 <= k < canonical(s).len() && canonical(s)[k] == x;
            }
            if s.contains(x) {
                let k = choose|k: int| 0 <= k < s.len() && s[k] == x;
            }
        }
    }
}

/// Two strictly sorted lists with the same members are the same list.
pub proof fn lemma_sorted_unique(a: Seq<TypeModel>, b: Seq<TypeModel>)
    requires
        strictly_sorted(a),
        strictly_sorted(b),
        same_members(a, b),
    ensures
        a == b,
    decreases a.len(),
{
    if a.len() == 0 {
        if b.len() > 0 {
            assert(b.contains(b[0]));
            let k = choose|k: int| 0 <= k < a.len() && a[k] == b[0];
        }
        assert(a =~= b);
    } else {
        assert(a.contains(a.last()));
        let k = choose|k: int| 0 <= k < b.len() && b[k] == a.last();
        assert(b.contains(b.last()));
        let m = choose|m: int| 0 <= m < a.len() && a[m] == b.last();
        lemma_type_order_same(a.last());
        lemma_type_order_basic(a.last(), b.last());
        assert(a.last() == b.last());
        let p = a.drop_last();
        let q = b.drop_last();
        assert forall|x: TypeModel| p.contains(x) <==> q.contains(x) by {
            if p.contains(x) {
                let i = choose|i: int| 0 <= i < p.len() && p[i] == x;
                assert(a[i] == x);
                assert(a.contains(x));
                let j = choose|j: int| 0 <= j < b.len() && b[j] == x;
                lemma_type_order_same(x);
                assert(type_order(a[i], a[a.len() - 1]) < 0);
                assert(q[j] == x);
            }
            if q.contains(x) {
                let j = choose|j: int| 0 <= j < q.len() && q[j] == x;
                assert(b[j] == x);
                assert(b.contains(x));
                let i = choose|i: int| 0 <= i < a.len() && a[i] == x;
                lemma_type_order_same(x);
                assert(type_order(b[j], b[b.len() - 1]) < 0);
                assert(p[i] == x);
            }
        }
        assert(strictly_sorted(p)) by {
            assert forall|i: int, j: int| 0 <= i < j < p.len() implies type_order(p[i], p[j])
                < 0 by {
                assert(p[i] == a[i] && p[j] == a[j]);
            }
        }
        assert(strictly_sorted(q)) by {
            assert forall|i: int, j: int| 0 <= i < j < q.len() implies type_order(q[i], q[j])
                < 0 by {
                assert(q[i] == b[i] && q[j] == b[j]);
            }
        }
        lemma_sorted_unique(p, q);
        assert(a =~= p.push(a.last()));
        assert(b =~= q.push(b.last()));
    }
}

/// Lists with the same members have the same canonical form: neither the
/// order of the members nor how often one occurs matters.
pub proof fn lemma_canonical_of_same_members(s: Seq<TypeModel>, t: Seq<TypeModel>)
    requires
        same_members(s, t),
    ensures
        canonical(s) == canonical(t),
{
    lemma_canonical(s);
    lemma_canonical(t);
    lemma_sorted_unique(canonical(s), canonical(t));
}

/// A strictly sorted list is its own canonical form.
pub proof fn lemma_canonical_of_sorted(s: Seq<TypeModel>)
    requires
        strictly_sorted(s),
    ensures
        canonical(s) == s,
{
    lemma_canonical(s);
    lemma_sorted_unique(canonical(s), s);
}

/// Where `insert_member` puts `x`: after the `j` first members, none of
/// the later ones being smaller than or equal to `x`.
proof fn lemma_insert_position(s: Seq<TypeModel>, x: TypeModel, j: int)
    requires
        0 <= j <= s.len(),
        forall|k: int| j <= k < s.len() ==> type_order(s[k], x) > 0,
        j > 0 ==> type_order(s[j - 1], x) <= 0,
    ensures
        insert_member(s, x) == if j > 0 && type_order(s[j - 1], x) == 0 {
            s
        } else {
            s.insert(j, x)
        },
    decreases s.len() - j,
{
    if j == s.len() {
        if s.len() > 0 && type_order(s.last(), x) < 0 {
            assert(s.push(x) =~= s.insert(j, x));
        } else if s.len() == 0 {
            assert(seq![x] =~= s.insert(j, x));
        }
    } else {
        let p = s.drop_last();
        assert(type_order(s[s.len() - 1], x) > 0);
        assert forall|k: int| j <= k < p.len() implies type_order(p[k], x) > 0 by {
            assert(p[k] == s[k]);
        }
        if j > 0 {
            assert(p[j - 1] == s[j - 1]);
        }
        lemma_insert_position(p, x, j);
        if j > 0 && type_order(s[j - 1], x) == 0 {
            assert(p.push(s.last()) =~= s);
        } else {
            assert(p.insert(j, x).push(s.last()) =~= s.insert(j, x));
        }
    }
}

/// Puts `x` into a member list as `insert_member` says.
pub fn insert_member_into(out: &mut Vec<Type>, x: Type)
    ensures
        types_view(final(out)) == insert_member(types_view(old(out)), x@),
{
    let mut j: usize = out.len();
    while j > 0 && compare_types(&out[j - 1], &x) > 0
        invariant
            j <= out.len(),
            *out == *old(out),
            forall|k: int| j <= k < out.len() ==> type_order(types_view(out)[k], x@) > 0,
        decreases j,
    {
        j = j - 1;
    }
    let ghost s = types_view(out);
    proof {
        lemma_insert_position(s, x@, j as int);
    }
    if j > 0 && compare_types(&out[j - 1], &x) == 0 {
    } else {
        out.insert(j, x);
        assert(types_view(out) =~= s.insert(j as int, x@));
    }
}

} // verus!
