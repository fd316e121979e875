use structural_typing::selector::select_shape;
use structural_typing::{Field, Presence, Record};

#[derive(Debug, Clone, PartialEq)]
enum V {
    S(String),
    I(i64),
}

fn n(s: &str) -> String {
    s.to_string()
}

fn pair_schema() -> Vec<String> {
    vec![n("first"), n("second")]
}

#[test]
fn multiple_generics_basic() {
    let val = Record::empty(pair_schema())
        .set(&n("first"), Field::Present(V::I(42)))
        .set(&n("second"), Field::Present(V::S("hello".to_string())));
    assert_eq!(val.get(&n("first")), Some(&V::I(42)));
    assert_eq!(val.get(&n("second")), Some(&V::S("hello".to_string())));
}

#[test]
fn multiple_generics_partial() {
    let val = Record::empty(pair_schema()).set(&n("second"), Field::Present(V::S("world".to_string())));
    assert_eq!(val.get(&n("second")), Some(&V::S("world".to_string())));
}

#[test]
fn multiple_generics_merge() {
    let first_part = Record::empty(pair_schema())
        .set(&n("first"), Field::Present(V::S("merged".to_string())));
    let second_part = Record::empty(pair_schema()).set(&n("second"), Field::Present(V::I(99)));

    let merged = first_part.merge(second_part);

    assert_eq!(merged.get(&n("first")), Some(&V::S("merged".to_string())));
    assert_eq!(merged.get(&n("second")), Some(&V::I(99)));
}

#[test]
fn generic_extract_with_remainder() {
    let full = Record::empty(pair_schema())
        .set(&n("first"), Field::Present(V::S("hello".to_string())))
        .set(&n("second"), Field::Present(V::I(42)));

    let target = select_shape(&pair_schema(), &vec![(n("first"), Presence::Present)]).unwrap();
    let (extracted, remainder) = full.extract(&target);

    assert_eq!(extracted.get(&n("first")), Some(&V::S("hello".to_string())));
    assert_eq!(remainder.get(&n("second")), Some(&V::I(42)));
}
