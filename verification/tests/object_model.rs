use pdf_text::object::{Dict, ObjectError, ObjectId, ObjectTable, PrimKind, Primitive};

fn id(n: u32) -> ObjectId {
    ObjectId { obj_nr: n, gen_nr: 0 }
}

fn table() -> ObjectTable {
    ObjectTable {
        entries: vec![
            (id(1), Primitive::Reference(id(2))),
            (id(2), Primitive::Integer(7)),
            (id(3), Primitive::Reference(id(4))),
            (id(4), Primitive::Reference(id(3))),
            (
                id(5),
                Primitive::Dictionary(Dict {
                    entries: vec![("Type".to_string(), Primitive::Name("Page".to_string()))],
                }),
            ),
            (id(6), Primitive::Reference(id(2))),
            (id(7), Primitive::Real(1500)),
        ],
    }
}

#[test]
fn resolve_follows_reference_chains() {
    let t = table();
    match t.resolve(id(1)) {
        Ok(Primitive::Integer(7)) => (),
        _ => panic!("expected the integer behind the chain"),
    }
}

#[test]
fn resolve_is_deterministic_and_idempotent() {
    let t = table();
    let first = t.resolve(id(1));
    let second = t.resolve(id(1));
    match (first, second) {
        (Ok(Primitive::Integer(a)), Ok(Primitive::Integer(b))) => assert_eq!(a, b),
        _ => panic!("expected both calls to succeed alike"),
    }
}

#[test]
fn resolve_missing_id_is_unresolved() {
    let t = table();
    match t.resolve(id(9)) {
        Err(ObjectError::UnresolvedReference(missing)) => assert_eq!(missing, id(9)),
        _ => panic!("expected UnresolvedReference"),
    }
}

#[test]
fn resolve_cycle_is_circular() {
    let t = table();
    match t.resolve(id(3)) {
        Err(ObjectError::CircularReference(_)) => (),
        _ => panic!("expected CircularReference"),
    }
}

#[test]
fn as_dictionary_through_reference_succeeds() {
    let t = table();
    let p = Primitive::Reference(id(5));
    let d = p.as_dictionary(&t).expect("dictionary expected");
    assert_eq!(d.entries.len(), 1);
    assert_eq!(d.entries[0].0, "Type");
}

#[test]
fn as_dictionary_on_integer_reference_reports_both_kinds() {
    let t = table();
    let p = Primitive::Reference(id(2));
    match p.as_dictionary(&t) {
        Err(ObjectError::WrongPrimitiveType { expected, found }) => {
            assert_eq!(expected, PrimKind::Dictionary);
            assert_eq!(found, PrimKind::Integer);
        }
        _ => panic!("expected WrongPrimitiveType"),
    }
}

#[test]
fn as_integer_resolves_one_hop() {
    let t = table();
    assert_eq!(Primitive::Reference(id(1)).as_integer(&t).unwrap(), 7);
    assert_eq!(Primitive::Integer(3).as_integer(&t).unwrap(), 3);
    match Primitive::Reference(id(7)).as_integer(&t) {
        Err(ObjectError::WrongPrimitiveType { expected, found }) => {
            assert_eq!(expected, PrimKind::Integer);
            assert_eq!(found, PrimKind::Real);
        }
        _ => panic!("expected WrongPrimitiveType"),
    }
}

#[test]
fn as_reference_returns_the_id_unresolved() {
    let p = Primitive::Reference(id(3));
    assert_eq!(p.as_reference().unwrap(), id(3));
    match Primitive::Null.as_reference() {
        Err(ObjectError::WrongPrimitiveType { expected, found }) => {
            assert_eq!(expected, PrimKind::Reference);
            assert_eq!(found, PrimKind::Null);
        }
        _ => panic!("expected WrongPrimitiveType"),
    }
}

#[test]
fn as_array_and_as_stream_check_shapes() {
    let t = ObjectTable {
        entries: vec![(
            id(1),
            Primitive::Array(vec![Primitive::Integer(1), Primitive::Integer(2)]),
        )],
    };
    let p = Primitive::Reference(id(1));
    let arr = p.as_array(&t).expect("array expected");
    assert_eq!(arr.len(), 2);
    match Primitive::Boolean(true).as_stream(&t) {
        Err(ObjectError::WrongPrimitiveType { expected, found }) => {
            assert_eq!(expected, PrimKind::Stream);
            assert_eq!(found, PrimKind::Boolean);
        }
        _ => panic!("expected WrongPrimitiveType"),
    }
}
