use structural_typing::json::Value;
use structural_typing::selector::{modify_shape, select_shape};
use structural_typing::{Field, Presence, Record};

fn n(s: &str) -> String {
    s.to_string()
}

fn v(s: &str) -> Value {
    Value::Str(s.to_string())
}

fn schema() -> Vec<String> {
    vec![n("name"), n("email"), n("id")]
}

fn empty() -> Record<Value> {
    Record::empty(schema())
}

fn shape_of(quals: &[(&str, Presence)]) -> Vec<Presence> {
    let quals: Vec<(String, Presence)> = quals.iter().map(|(f, p)| (n(f), *p)).collect();
    select_shape(&schema(), &quals).unwrap()
}

#[test]
fn select_basic() {
    let shape = shape_of(&[("name", Presence::Present)]);
    assert_eq!(shape, vec![Presence::Present, Presence::Absent, Presence::Absent]);
    let val = empty().set(&n("name"), Field::Present(v("Alice")));
    assert_eq!(val.get(&n("name")), Some(&v("Alice")));
}

#[test]
fn select_multiple() {
    let shape = shape_of(&[("name", Presence::Present), ("email", Presence::Present)]);
    assert_eq!(shape, vec![Presence::Present, Presence::Present, Presence::Absent]);
    let val = empty()
        .set(&n("name"), Field::Present(v("Bob")))
        .set(&n("email"), Field::Present(v("bob@test.com")));
    assert_eq!(val.get(&n("name")), Some(&v("Bob")));
    assert_eq!(val.get(&n("email")), Some(&v("bob@test.com")));
}

#[test]
fn select_optional() {
    let shape = shape_of(&[("name", Presence::Present), ("email", Presence::Optional)]);
    assert_eq!(shape, vec![Presence::Present, Presence::Optional, Presence::Absent]);
    let val = empty()
        .set(&n("name"), Field::Present(v("Charlie")))
        .set(&n("email"), Field::Optional(Some(v("charlie@test.com"))));
    assert_eq!(val.get(&n("name")), Some(&v("Charlie")));
    assert_eq!(val.get(&n("email")), Some(&v("charlie@test.com")));
}

#[test]
fn select_empty_all_absent() {
    let val = empty();
    assert!(val.get(&n("name")).is_none());
    assert!(val.get(&n("email")).is_none());
    assert!(val.get(&n("id")).is_none());
}

#[test]
fn select_all_optional() {
    let val = empty()
        .set(&n("name"), Field::Optional(Some(v("Alice"))))
        .set(&n("email"), Field::Optional(None))
        .set(&n("id"), Field::Optional(Some(Value::Int(123))));
    assert_eq!(val.get(&n("name")), Some(&v("Alice")));
    assert_eq!(val.get(&n("email")), None);
    assert_eq!(val.get(&n("id")), Some(&Value::Int(123)));
}

#[test]
fn modify_add_fields() {
    let val = empty()
        .set(&n("name"), Field::Present(v("Dave")))
        .set(&n("email"), Field::Present(v("dave@test.com")));
    assert_eq!(val.get(&n("name")), Some(&v("Dave")));
    assert_eq!(val.get(&n("email")), Some(&v("dave@test.com")));
}

#[test]
fn modify_remove_fields() {
    let val = empty()
        .set(&n("name"), Field::Present(v("Eve")))
        .unset(&n("email"))
        .unset(&n("id"));
    assert_eq!(val.get(&n("name")), Some(&v("Eve")));
    assert!(val.get(&n("email")).is_none());
    assert!(val.get(&n("id")).is_none());
}

#[test]
fn modify_make_optional() {
    let val = empty()
        .set(&n("name"), Field::Present(v("Frank")))
        .set(&n("email"), Field::Optional(None));
    assert_eq!(val.get(&n("name")), Some(&v("Frank")));
    assert_eq!(val.get(&n("email")), None);
}

#[test]
fn merge_with_select() {
    let name_val = empty().set(&n("name"), Field::Present(v("Alice")));
    let id_val = empty().set(&n("id"), Field::Present(Value::Int(123)));

    let merged = name_val.merge(id_val);
    assert_eq!(merged.get(&n("name")), Some(&v("Alice")));
    assert_eq!(merged.get(&n("id")), Some(&Value::Int(123)));
}

#[test]
fn split_with_select() {
    let full = empty()
        .set(&n("name"), Field::Present(v("Charlie")))
        .set(&n("email"), Field::Present(v("charlie@test.com")))
        .set(&n("id"), Field::Present(Value::Int(789)));

    let target = shape_of(&[("name", Presence::Present), ("id", Presence::Present)]);
    let (selected, remainder) = full.extract(&target);
    assert_eq!(selected.get(&n("name")), Some(&v("Charlie")));
    assert_eq!(selected.get(&n("id")), Some(&Value::Int(789)));
    assert!(selected.get(&n("email")).is_none());

    assert_eq!(remainder.get(&n("email")), Some(&v("charlie@test.com")));
    assert!(remainder.get(&n("name")).is_none());
    assert!(remainder.get(&n("id")).is_none());
}

#[test]
fn try_extract_failure() {
    let optional_email = empty()
        .set(&n("name"), Field::Present(v("Test")))
        .set(&n("email"), Field::Optional(None));
    let target = shape_of(&[("name", Presence::Present), ("email", Presence::Present)]);
    let result = optional_email.try_extract(&target);
    assert!(
        result.is_err(),
        "try_extract should fail when Optional field is None but target needs Present"
    );
}

#[test]
fn try_extract_returns_exact_original() {
    let original = empty()
        .set(&n("name"), Field::Present(v("Alice")))
        .set(&n("email"), Field::Optional(None))
        .set(&n("id"), Field::Present(Value::Int(123)));

    let cloned = original.clone();
    let target = shape_of(&[
        ("name", Presence::Present),
        ("email", Presence::Present),
        ("id", Presence::Present),
    ]);
    let result = original.try_extract(&target);

    assert!(result.is_err());
    let returned = result.unwrap_err();
    assert_eq!(returned, cloned, "try_extract should return exact original on failure");
}

#[test]
fn try_extract_failure_at_different_positions() {
    let partial = empty()
        .set(&n("name"), Field::Present(v("Bob")))
        .set(&n("email"), Field::Optional(None))
        .set(&n("id"), Field::Present(Value::Int(456)));

    let cloned = partial.clone();
    let target = shape_of(&[
        ("name", Presence::Present),
        ("email", Presence::Present),
        ("id", Presence::Present),
    ]);
    let result = partial.try_extract(&target);

    assert!(result.is_err());
    assert_eq!(result.unwrap_err(), cloned);

    let partial2 = empty()
        .set(&n("name"), Field::Present(v("Charlie")))
        .set(&n("email"), Field::Present(v("charlie@test.com")))
        .set(&n("id"), Field::Optional(None));

    let cloned2 = partial2.clone();
    let result2 = partial2.try_extract(&target);

    assert!(result2.is_err());
    assert_eq!(result2.unwrap_err(), cloned2);
}

#[test]
fn try_extract_without_clone() {
    let nc_schema = vec![n("value"), n("id")];
    let ncs = Record::empty(nc_schema.clone())
        .set(&n("value"), Field::Present(v("test")))
        .set(&n("id"), Field::Present(Value::Int(42)));

    let target = select_shape(&nc_schema, &vec![(n("value"), Presence::Present)]).unwrap();
    match ncs.try_extract(&target) {
        Ok((selected, remainder)) => {
            assert_eq!(selected.get(&n("value")), Some(&v("test")));
            assert_eq!(remainder.get(&n("id")), Some(&Value::Int(42)));
        }
        Err(_) => panic!("Expected success"),
    }

    let ncs2 = Record::empty(nc_schema.clone())
        .set(&n("value"), Field::Optional(None))
        .set(&n("id"), Field::Present(Value::Int(99)));

    match ncs2.try_extract(&target) {
        Ok(_) => panic!("Expected error when Optional is None"),
        Err(returned) => {
            assert_eq!(returned.get(&n("value")), None);
            assert_eq!(returned.get(&n("id")), Some(&Value::Int(99)));
        }
    }
}

#[test]
fn try_extract_multiple_optional_fields() {
    let partial = empty()
        .set(&n("name"), Field::Optional(Some(v("Alice"))))
        .set(&n("email"), Field::Optional(None))
        .set(&n("id"), Field::Present(Value::Int(123)));

    let cloned = partial.clone();
    let target = shape_of(&[("name", Presence::Present), ("email", Presence::Present)]);
    let result = partial.try_extract(&target);

    assert!(result.is_err());
    assert_eq!(result.unwrap_err(), cloned);
}

#[test]
fn try_extract_success_then_merge_and_reverse_split() {
    let original = empty()
        .set(&n("name"), Field::Present(v("Bob")))
        .set(&n("email"), Field::Present(v("bob@test.com")))
        .set(&n("id"), Field::Present(Value::Int(456)));

    // Convert email: Present -> Optional
    let target = shape_of(&[("name", Presence::Present), ("email", Presence::Optional)]);
    let result = original.try_extract(&target);
    assert!(result.is_ok());
    let (selected, remainder) = result.unwrap();

    let expected_selected = empty()
        .set(&n("name"), Field::Present(v("Bob")))
        .set(&n("email"), Field::Optional(Some(v("bob@test.com"))));
    assert_eq!(selected, expected_selected);

    // Merge back (email now Optional)
    let reconstructed = selected.merge(remainder);
    let expected_reconstructed = empty()
        .set(&n("name"), Field::Present(v("Bob")))
        .set(&n("email"), Field::Optional(Some(v("bob@test.com"))))
        .set(&n("id"), Field::Present(Value::Int(456)));
    assert_eq!(reconstructed, expected_reconstructed);

    // Convert back: Optional -> Present
    let target2 = shape_of(&[("email", Presence::Present)]);
    let result2 = reconstructed.try_extract(&target2);
    assert!(result2.is_ok());
    let (selected2, remainder2) = result2.unwrap();

    let expected_selected2 = empty().set(&n("email"), Field::Present(v("bob@test.com")));
    let expected_remainder2 = empty()
        .set(&n("name"), Field::Present(v("Bob")))
        .set(&n("id"), Field::Present(Value::Int(456)));
    assert_eq!(selected2, expected_selected2);
    assert_eq!(remainder2, expected_remainder2);
}

#[test]
fn bounded_impl_with_select() {
    let val = empty().set(&n("name"), Field::Present(v("Diana")));
    let greeting = match val.get(&n("name")) {
        Some(Value::Str(name)) => format!("Hello, {}!", name),
        _ => panic!("name must be present"),
    };
    assert_eq!(greeting, "Hello, Diana!");
}

#[test]
fn bounded_impl_with_modify() {
    let val = empty()
        .set(&n("name"), Field::Present(v("Eve")))
        .set(&n("email"), Field::Present(v("eve@test.com")));
    let subject = match (val.get(&n("name")), val.get(&n("email"))) {
        (Some(Value::Str(name)), Some(Value::Str(email))) => {
            format!("Welcome, {}! <{}>", name, email)
        }
        _ => panic!("name and email must be present"),
    };
    assert_eq!(subject, "Welcome, Eve! <eve@test.com>");
}

#[test]
fn unset_field() {
    let full = empty().set(&n("name"), Field::Present(v("Test")));
    let val = full.unset(&n("name"));
    assert!(val.get(&n("name")).is_none());
}

#[test]
fn merge_conflict_resolution() {
    let user1 = empty()
        .set(&n("name"), Field::Present(v("Alice")))
        .set(&n("id"), Field::Present(Value::Int(111)));
    let user2 = empty()
        .set(&n("name"), Field::Present(v("Bob")))
        .set(&n("id"), Field::Present(Value::Int(222)));
    let merged = user1.merge(user2);
    // user2 wins
    assert_eq!(merged.get(&n("name")), Some(&v("Bob")));
    assert_eq!(merged.get(&n("id")), Some(&Value::Int(222)));
}

#[test]
fn select_with_module_path() {
    let shape = shape_of(&[("name", Presence::Present)]);
    let val = empty().set(&n("name"), Field::Present(v("Alice")));
    let (selected, _) = val.extract(&shape);
    assert_eq!(selected.get(&n("name")), Some(&v("Alice")));
}

#[test]
fn select_with_trailing_comma() {
    let shape = shape_of(&[("name", Presence::Present)]);
    let val = empty().set(&n("name"), Field::Present(v("Alice")));
    let (selected, _) = val.extract(&shape);
    assert_eq!(selected.get(&n("name")), Some(&v("Alice")));

    let shape2 = shape_of(&[("name", Presence::Present), ("email", Presence::Present)]);
    let val2 = empty()
        .set(&n("name"), Field::Present(v("Bob")))
        .set(&n("email"), Field::Present(v("bob@test.com")));
    let (selected2, _) = val2.extract(&shape2);
    assert_eq!(selected2.get(&n("name")), Some(&v("Bob")));
    assert_eq!(selected2.get(&n("email")), Some(&v("bob@test.com")));

    let val3 = empty().set(&n("name"), Field::Optional(Some(v("Charlie"))));
    assert_eq!(val3.get(&n("name")), Some(&v("Charlie")));
}

#[test]
fn select_absent_field() {
    let shape = shape_of(&[("name", Presence::Absent)]);
    assert_eq!(shape, vec![Presence::Absent, Presence::Absent, Presence::Absent]);
    let val = empty();
    assert!(val.get(&n("name")).is_none());
}

#[test]
fn select_all_absent() {
    let val = empty();
    assert!(val.get(&n("name")).is_none());
    assert!(val.get(&n("email")).is_none());
    assert!(val.get(&n("id")).is_none());
}

#[test]
fn select_custom_presence_type() {
    let shape = shape_of(&[("name", Presence::Optional)]);
    assert_eq!(shape, vec![Presence::Optional, Presence::Absent, Presence::Absent]);
    let val = empty().set(&n("name"), Field::Optional(Some(v("Custom"))));
    assert_eq!(val.get(&n("name")), Some(&v("Custom")));
}

#[test]
fn select_spread_with_optional() {
    // id gets an explicit qualifier, the rest of the shape is spread from a base
    let base = shape_of(&[("name", Presence::Present)]);
    let shape = modify_shape(&schema(), &base, &vec![(n("id"), Presence::Optional)]).unwrap();
    assert_eq!(shape, vec![Presence::Present, Presence::Absent, Presence::Optional]);
    let val = empty()
        .set(&n("name"), Field::Present(v("Bob")))
        .set(&n("id"), Field::Optional(Some(Value::Int(123))));
    assert_eq!(val.get(&n("name")), Some(&v("Bob")));
    assert_eq!(val.get(&n("id")), Some(&Value::Int(123)));
}

#[test]
fn select_mixed_presence() {
    let shape = shape_of(&[
        ("name", Presence::Present),
        ("email", Presence::Optional),
        ("id", Presence::Absent),
    ]);
    assert_eq!(shape, vec![Presence::Present, Presence::Optional, Presence::Absent]);
    let val = empty()
        .set(&n("name"), Field::Present(v("Charlie")))
        .set(&n("email"), Field::Optional(Some(v("charlie@example.com"))));
    assert_eq!(val.get(&n("name")), Some(&v("Charlie")));
    assert_eq!(val.get(&n("email")), Some(&v("charlie@example.com")));
    assert!(val.get(&n("id")).is_none());
}

#[test]
fn generic_extract_to_absent() {
    fn remove_email(data: Record<Value>) -> Record<Value> {
        let target = shape_of(&[
            ("name", Presence::Present),
            ("email", Presence::Absent),
            ("id", Presence::Present),
        ]);
        let (extracted, _) = data.extract(&target);
        extracted
    }

    let complete = empty()
        .set(&n("name"), Field::Present(v("Alice")))
        .set(&n("email"), Field::Present(v("alice@example.com")))
        .set(&n("id"), Field::Present(Value::Int(123)));

    let without_email = remove_email(complete);
    assert_eq!(without_email.get(&n("name")), Some(&v("Alice")));
    assert_eq!(without_email.get(&n("id")), Some(&Value::Int(123)));
}

#[test]
fn generic_extract_to_optional() {
    fn extract_name_as_optional(data: Record<Value>) -> Record<Value> {
        let target = shape_of(&[("name", Presence::Optional)]);
        let (extracted, _) = data.extract(&target);
        extracted
    }

    let complete = empty()
        .set(&n("name"), Field::Present(v("Bob")))
        .set(&n("email"), Field::Present(v("bob@example.com")))
        .set(&n("id"), Field::Present(Value::Int(456)));

    let with_optional_name = extract_name_as_optional(complete);
    assert_eq!(with_optional_name.get(&n("name")), Some(&v("Bob")));
}

#[test]
fn select_spread_operator() {
    fn add_id_field(base: Record<Value>, id: u64) -> Record<Value> {
        base.set(&n("id"), Field::Present(Value::Int(id)))
    }

    let with_name = empty().set(&n("name"), Field::Present(v("Alice")));
    let with_id = add_id_field(with_name, 42);
    assert_eq!(with_id.get(&n("name")), Some(&v("Alice")));
    assert_eq!(with_id.get(&n("id")), Some(&Value::Int(42)));
}
