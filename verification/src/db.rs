//! The table of interned types: each type is held once, and a handle
//! stands for it.

use vstd::prelude::*;
use crate::fields::well_formed;
use crate::order::{compare_types, lemma_type_order_basic, lemma_type_order_same};
use crate::simplify::{simplify, simplify_ty};
use crate::types::{Type, TypeModel};

verus! {

broadcast use {vstd::seq::group_seq_axioms, vstd::std_specs::vec::group_vec_axioms};

/// No type occurs at two indices: two handles stand for the same type only
/// if they are the same handle.
pub open spec fn all_distinct(s: Seq<TypeModel>) -> bool {
    forall|i: int, j: int|
        0 <= i < s.len() && 0 <= j < s.len() && #[trigger] s[i] == #[trigger] s[j] ==> i == j
}

/// A handle to an interned type.
#[derive(Debug, Clone, Copy, PartialEq, Eq, Structural)]
pub struct TypeId {
    pub index: usize,
}

/// The types interned so far, and the canonical forms that were asked
/// for. A type stays for as long as the table lives, and no type is held
/// twice.
pub struct Database {
    types: Vec<Type>,
    /// The canonical form of the type with the same index, once it was
    /// computed.
    simplified: Vec<Option<Type>>,
}

impl Database {
    /// The interned types, each at the index of its handle.
    pub closed spec fn interned(&self) -> Seq<TypeModel> {
        Seq::new(self.types.len() as nat, |i: int| self.types[i]@)
    }

    /// No type is held twice, and every canonical form that is held is
    /// that of its type.
    pub closed spec fn wf(&self) -> bool {
        &&& all_distinct(self.interned())
        &&& forall|i: int|
            0 <= i < self.simplified.len() ==> (#[trigger] self.simplified[i] matches Some(t) ==> i
                < self.types.len() && t@ == simplify(self.types[i]@))
    }

    /// In a table, two handles stand for the same type only if they are
    /// the same handle.
    pub proof fn lemma_distinct(&self)
        requires
            self.wf(),
        ensures
            all_distinct(self.interned()),
    {
    }

    /// An empty table.
    pub fn new() -> (r: Database)
        ensures
            r.interned() == Seq::<TypeModel>::empty(),
            r.wf(),
    {
        let r = Database { types: Vec::new(), simplified: Vec::new() };
        assert(r.interned() =~= Seq::<TypeModel>::empty());
        r
    }

    /// The number of interned types.
    pub fn len(&self) -> (n: usize)
        ensures
            n == self.interned().len(),
    {
        self.types.len()
    }

    /// The handle of a type: the one it has already, or else a new one,
    /// the next in number. The handles given before stand for the types
    /// they stood for.
    pub fn intern(&mut self, ty: Type) -> (id: TypeId)
        requires
            old(self).wf(),
        ensures
            id.index < final(self).interned().len(),
            final(self).interned()[id.index as int] == ty@,
            old(self).interned().contains(ty@) ==> final(self).interned() == old(self).interned(),
            !old(self).interned().contains(ty@) ==> final(self).interned() == old(
                self,
            ).interned().push(ty@),
            final(self).wf(),
    {
        let mut i: usize = 0;
        while i < self.types.len()
            invariant
                i <= self.types.len(),
                *self == *old(self),
                self.wf(),
                forall|k: int| 0 <= k < i ==> self.types[k]@ != ty@,
            decreases self.types.len() - i,
        {
            proof {
                lemma_type_order_basic(self.types[i as int]@, ty@);
                lemma_type_order_same(ty@);
            }
            if compare_types(&self.types[i], &ty) == 0 {
                assert(self.interned()[i as int] == ty@);
                return TypeId { index: i };
            }
            i = i + 1;
        }
        assert(!self.interned().contains(ty@)) by {
            if self.interned().contains(ty@) {
                let k = choose|k: int| 0 <= k < self.interned().len() && self.interned()[k] == ty@;
                assert(self.types[k]@ != ty@);
            }
        }
        let ghost before = self.interned();
        self.types.push(ty);
        assert(self.interned() =~= before.push(ty@));
        assert(all_distinct(self.interned())) by {
            assert forall|a: int, b: int|
                0 <= a < self.interned().len() && 0 <= b < self.interned().len()
                    && #[trigger] self.interned()[a] == #[trigger] self.interned()[b] implies a
                == b by {
                if a < before.len() && b < before.len() {
                    assert(before[a] == before[b]);
                } else if a < before.len() {
                    assert(before.contains(before[a]));
                } else if b < before.len() {
                    assert(before.contains(before[b]));
                }
            }
        }
        TypeId { index: i }
    }

    /// The canonical form of a type. The type is interned, and its
    /// canonical form is computed when it is first asked for.
    pub fn simplify(&mut self, ty: &Type) -> (r: Type)
        requires
            old(self).wf(),
        ensures
            final(self).wf(),
            r@ == simplify(ty@),
            well_formed(ty@) ==> well_formed(r@),
            old(self).interned().is_prefix_of(final(self).interned()),
            final(self).interned().contains(ty@),
    {
        proof {
            if well_formed(ty@) {
                crate::simplify::lemma_simplify_well_formed(ty@);
            }
        }
        let id = self.intern(ty.clone());
        while self.simplified.len() <= id.index
            invariant
                self.wf(),
                self.interned() == old(self).interned() || self.interned() == old(
                    self,
                ).interned().push(ty@),
                id.index < self.interned().len(),
                self.interned()[id.index as int] == ty@,
            decreases id.index + 1 - self.simplified.len(),
        {
            self.simplified.push(None);
        }
        let known: Option<Type> = match &self.simplified[id.index] {
            Some(t) => Some(t.clone()),
            None => None,
        };
        match known {
            Some(t) => t,
            None => {
                let r = simplify_ty(ty);
                self.simplified[id.index] = Some(r.clone());
                r
            },
        }
    }

    /// The type that a handle stands for, if the table gave the handle.
    pub fn get(&self, id: TypeId) -> (r: Option<&Type>)
        ensures
            match r {
                Some(ty) => id.index < self.interned().len() 
                    && ty@ == self.interned()[id.index as int],
                None => id.index >= self.interned().len(),
            },
    {
        if id.index < self.types.len() {
            Some(&self.types[id.index])
        } else {
            None
        }
    }
}

/// Interning two types in one table gives the same handle exactly if they
/// are the same type.
pub proof fn lemma_same_handle_same_type(table: Seq<TypeModel>, i: int, j: int)
    requires
        all_distinct(table),
        0 <= i < table.len(),
        0 <= j < table.len(),
    ensures
        i == j <==> table[i] == table[j],
{
}

impl Default for Database {
    fn default() -> (r: Database)
        ensures
            r.interned() == Seq::<TypeModel>::empty(),
            r.wf(),
    {
        Database::new()
    }
}

} // verus!
