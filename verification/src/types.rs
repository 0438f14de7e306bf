//! The algebra of types and its mathematical model.

use vstd::prelude::*;

verus! {

broadcast use vstd::std_specs::vec::group_vec_axioms;

/// A type of the generated client.
#[derive(Debug, PartialEq, Eq)]
pub enum Type {
    /// A named type that is declared elsewhere.
    Reference(String),
    /// A record; its fields stand in the order of their names.
    Object(Vec<Field>),
    Array(Box<Type>),
    Tuple(Vec<Type>),
    /// A union of its members.
    Or(Vec<Type>),
    /// An intersection of its members.
    And(Vec<Type>),
    Number,
    /// The type of one string literal.
    Ident(String),
    String,
    Boolean,
}

/// The type of a field, and whether the field may be absent.
#[derive(Debug, PartialEq, Eq)]
pub struct Property {
    pub ty: Type,
    pub optional: bool,
}

/// A field of an object: its name and its property.
pub type Field = (String, Property);

/// What a [`Field`] is, as a mathematical value.
pub type FieldModel = (Seq<char>, PropertyModel);

/// What a [`Type`] is, as a mathematical value.
pub enum TypeModel {
    Reference(Seq<char>),
    Object(Seq<FieldModel>),
    Array(Box<TypeModel>),
    Tuple(Seq<TypeModel>),
    Or(Seq<TypeModel>),
    And(Seq<TypeModel>),
    Number,
    Ident(Seq<char>),
    String,
    Boolean,
}

/// What a [`Property`] is, as a mathematical value.
pub struct PropertyModel {
    pub ty: TypeModel,
    pub optional: bool,
}

impl Type {
    /// The mathematical value of this type.
    pub open spec fn model(&self) -> TypeModel
        decreases self,
    {
        match self {
            Type::Reference(name) => TypeModel::Reference(name@),
            Type::Object(fields) => TypeModel::Object(fields_view(fields)),
            Type::Array(item) => TypeModel::Array(Box::new(item.model())),
            Type::Tuple(items) => TypeModel::Tuple(types_view(items)),
            Type::Or(items) => TypeModel::Or(types_view(items)),
            Type::And(items) => TypeModel::And(types_view(items)),
            Type::Number => TypeModel::Number,
            Type::Ident(value) => TypeModel::Ident(value@),
            Type::String => TypeModel::String,
            Type::Boolean => TypeModel::Boolean,
        }
    }
}

impl View for Type {
    type V = TypeModel;

    open spec fn view(&self) -> TypeModel {
        self.model()
    }
}

impl View for Property {
    type V = PropertyModel;

    open spec fn view(&self) -> PropertyModel {
        PropertyModel { ty: self.ty.model(), optional: self.optional }
    }
}

/// The models of the fields of a vector, in its order.
pub open spec fn fields_view(fields: &Vec<Field>) -> Seq<FieldModel>
    decreases fields,
{
    Seq::new(
        fields.len() as nat,
        |i: int|
            if 0 <= i < fields.len() {
                (
                    fields[i].0@,
                    PropertyModel { ty: fields[i].1.ty.model(), optional: fields[i].1.optional },
                )
            } else {
                (Seq::empty(), PropertyModel { ty: TypeModel::Number, optional: false })
            },
    )
}

/// The models of the types of a vector, in its order.
pub open spec fn types_view(items: &Vec<Type>) -> Seq<TypeModel>
    decreases items,
{
    Seq::new(
        items.len() as nat,
        |i: int|
            if 0 <= i < items.len() {
                items[i].model()
            } else {
                TypeModel::Number
            },
    )
}

impl Clone for Type {
    fn clone(&self) -> (r: Type)
        ensures
            r@ == self@,
        decreases self, 1int,
    {
        match self {
            Type::Reference(name) => Type::Reference(name.clone()),
            Type::Object(fields) => Type::Object(clone_fields(fields)),
            Type::Array(item) => {
                let inner: Type = (**item).clone();
                Type::Array(Box::new(inner))
            },
            Type::Tuple(items) => Type::Tuple(clone_types(items)),
            Type::Or(items) => Type::Or(clone_types(items)),
            Type::And(items) => Type::And(clone_types(items)),
            Type::Number => Type::Number,
            Type::Ident(value) => Type::Ident(value.clone()),
            Type::String => Type::String,
            Type::Boolean => Type::Boolean,
        }
    }
}

impl Clone for Property {
    fn clone(&self) -> (r: Property)
        ensures
            r@ == self@,
    {
        Property { ty: self.ty.clone(), optional: self.optional }
    }
}

fn clone_types(items: &Vec<Type>) -> (r: Vec<Type>)
    ensures
        types_view(&r) == types_view(items),
    decreases items, 0int,
{
    let mut out: Vec<Type> = Vec::new();
    let mut i: usize = 0;
    while i < items.len()
        invariant
            i <= items.len(),
            out.len() == i,
            forall|k: int| 0 <= k < i ==> out[k]@ == items[k]@,
        decreases items.len() - i,
    {
        out.push(items[i].clone());
        i = i + 1;
    }
    assert(types_view(&out) =~= types_view(items));
    out
}

/// A copy of a field list.
pub fn clone_fields(fields: &Vec<Field>) -> (r: Vec<Field>)
    ensures
        fields_view(&r) == fields_view(fields),
    decreases fields, 0int,
{
    let mut out: Vec<Field> = Vec::new();
    let mut i: usize = 0;
    while i < fields.len()
        invariant
            i <= fields.len(),
            out.len() == i,
            forall|k: int| 0 <= k < i ==> out[k].0@ == fields[k].0@ && out[k].1@ == fields[k].1@,
        decreases fields.len() - i,
    {
        let ty = fields[i].1.ty.clone();
        out.push((fields[i].0.clone(), Property { ty, optional: fields[i].1.optional }));
        i = i + 1;
    }
    assert(fields_view(&out) =~= fields_view(fields));
    out
}

impl Property {
    /// The property of a field that must be there.
    pub fn required(ty: Type) -> (r: Property)
        ensures
            r@ == (PropertyModel { ty: ty@, optional: false }),
    {
        Property { ty, optional: false }
    }
}

/// Every member is a literal type.
pub open spec fn all_literals(members: Seq<TypeModel>) -> bool {
    forall|i: int| 0 <= i < members.len() ==> members[i] is Ident
}

/// The values of a union of literal types, in its order; `None` for any
/// other type.
pub open spec fn constants_of(t: TypeModel) -> Option<Seq<Seq<char>>> {
    match t {
        TypeModel::Or(members) => if all_literals(members) {
            Some(Seq::new(members.len(), |i: int| members[i]->Ident_0))
        } else {
            None
        },
        _ => None,
    }
}

impl Type {
    /// The values of a union of literal types, in its order.
    pub fn constants(&self) -> (r: Option<Vec<String>>)
        ensures
            match r {
                Some(values) => constants_of(self@) == Some(values.deep_view()),
                None => constants_of(self@) is None,
            },
    {
        match self {
            Type::Or(options) => {
                let mut out: Vec<String> = Vec::new();
                let mut i: usize = 0;
                while i < options.len()
                    invariant
                        i <= options.len(),
                        out.len() == i,
                        self@ == TypeModel::Or(types_view(options)),
                        forall|k: int|
                            0 <= k < i ==> types_view(options)[k] == TypeModel::Ident(out[k]@),
                    decreases options.len() - i,
                {
                    match &options[i] {
                        Type::Ident(value) => {
                            out.push(value.clone());
                        },
                        _ => {
                            assert(!(types_view(options)[i as int] is Ident));
                            return None;
                        },
                    }
                    i = i + 1;
                }
                assert(out.deep_view() =~= Seq::new(
                    types_view(options).len(),
                    |i: int| types_view(options)[i]->Ident_0,
                ));
                Some(out)
            },
            _ => None,
        }
    }
}

} // verus!
