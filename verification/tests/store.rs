use abeye::db::TypeId;
use abeye::types::{Property, Type};
use abeye::Database;

fn object(name: &str, ty: Type) -> Type {
    Type::Object(vec![(name.to_string(), Property { ty, optional: false })])
}

#[test]
fn equal_types_get_the_same_handle() {
    let mut db = Database::new();
    let a = db.intern(object("a", Type::Or(vec![Type::Number, Type::String])));
    let b = db.intern(Type::Number);
    let again = db.intern(object("a", Type::Or(vec![Type::Number, Type::String])));
    assert_eq!(a, again);
    assert_ne!(a, b);
    assert_eq!(db.len(), 2);
}

#[test]
fn different_types_get_different_handles() {
    let mut db = Database::default();
    let ids = vec![
        db.intern(Type::Ident("a".to_string())),
        db.intern(Type::Reference("a".to_string())),
        db.intern(Type::Or(vec![Type::Number, Type::String])),
        db.intern(Type::Or(vec![Type::String, Type::Number])),
        db.intern(Type::And(vec![Type::String, Type::Number])),
        db.intern(object("a", Type::Number)),
        db.intern(Type::Object(vec![(
            "a".to_string(),
            Property { ty: Type::Number, optional: true },
        )])),
    ];
    for (i, id) in ids.iter().enumerate() {
        assert_eq!(*id, TypeId { index: i });
    }
    assert_eq!(db.len(), 7);
}

#[test]
fn handles_stay_valid_and_give_the_type_back() {
    let mut db = Database::new();
    let first = db.intern(Type::Tuple(vec![Type::Boolean]));
    for n in 0..10 {
        db.intern(Type::Ident(format!("v{n}")));
    }
    assert_eq!(db.get(first), Some(&Type::Tuple(vec![Type::Boolean])));
    assert_eq!(db.get(TypeId { index: 10 }), Some(&Type::Ident("v9".to_string())));
    assert_eq!(db.get(TypeId { index: 11 }), None);
    assert_eq!(Database::new().get(first), None);
}

#[test]
fn simplify_through_the_table_gives_the_canonical_form() {
    let mut db = Database::new();
    let ty = Type::Or(vec![Type::String, Type::Number, Type::String]);
    let simple = Type::Or(vec![Type::Number, Type::String]);
    assert_eq!(db.simplify(&ty), simple);
    assert_eq!(db.simplify(&ty), simple);
    assert_eq!(db.len(), 1);
    assert_eq!(db.simplify(&simple), simple);
    assert_eq!(db.len(), 2);
    assert_eq!(db.get(TypeId { index: 0 }), Some(&ty));
    assert_eq!(db.intern(simple), TypeId { index: 1 });
}
