use structural_typing::json::Value;
use structural_typing::selector::select_shape;
use structural_typing::{Field, Presence, Record};

fn n(s: &str) -> String {
    s.to_string()
}

fn v(s: &str) -> Value {
    Value::Str(s.to_string())
}

fn person_schema() -> Vec<String> {
    vec![n("name"), n("age"), n("email")]
}

fn basic_info_shape() -> Vec<Presence> {
    select_shape(
        &person_schema(),
        &vec![(n("name"), Presence::Present), (n("email"), Presence::Present)],
    )
    .unwrap()
}

#[test]
fn test_into_state_removes_fields() {
    let full = Record::empty(person_schema())
        .set(&n("name"), Field::Present(v("Alice")))
        .set(&n("age"), Field::Present(Value::Int(30)))
        .set(&n("email"), Field::Present(v("alice@example.com")));

    let basic = full.project(&basic_info_shape());

    assert_eq!(basic.get(&n("name")), Some(&v("Alice")));
    assert_eq!(basic.get(&n("email")), Some(&v("alice@example.com")));
}

#[test]
fn test_into_state_identity() {
    let person = Record::empty(person_schema())
        .set(&n("name"), Field::Present(v("Charlie")))
        .set(&n("email"), Field::Present(v("charlie@example.com")));

    let same = person.project(&basic_info_shape());

    assert_eq!(same.get(&n("name")), Some(&v("Charlie")));
    assert_eq!(same.get(&n("email")), Some(&v("charlie@example.com")));
}

#[test]
fn test_into_state_to_empty() {
    let full = Record::empty(person_schema())
        .set(&n("name"), Field::Present(v("Bob")))
        .set(&n("age"), Field::Present(Value::Int(25)))
        .set(&n("email"), Field::Present(v("bob@example.com")));

    let all_absent = select_shape(&person_schema(), &Vec::new()).unwrap();
    let empty = full.project(&all_absent);

    assert_eq!(empty.get(&n("name")), None);
    assert_eq!(empty.get(&n("age")), None);
    assert_eq!(empty.get(&n("email")), None);
}
