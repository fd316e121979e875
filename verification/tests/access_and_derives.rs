use structural_typing::json::Value;
use structural_typing::{Field, Record};

fn n(s: &str) -> String {
    s.to_string()
}

fn v(s: &str) -> Value {
    Value::Str(s.to_string())
}

fn str_of(v: &Value) -> String {
    match v {
        Value::Str(x) => x.clone(),
        _ => panic!("expected a string value"),
    }
}

fn config_schema() -> Vec<String> {
    vec![n("host"), n("port"), n("timeout"), n("debug")]
}

fn connection_string(config: &Record<Value>) -> String {
    let host = str_of(config.get(&n("host")).unwrap());
    let port = match config.get(&n("port")).unwrap() {
        Value::Int(p) => *p,
        _ => panic!("expected an integer value"),
    };
    let timeout_str = match config.get(&n("timeout")) {
        Some(Value::Int(t)) => format!(" (timeout: {}s)", t),
        _ => String::new(),
    };
    let debug_str = match config.get(&n("debug")) {
        Some(Value::Bool(true)) => " [DEBUG]",
        _ => "",
    };
    format!("{}:{}{}{}", host, port, timeout_str, debug_str)
}

#[test]
fn test_access_methods_work_in_generic_impl() {
    let basic = Record::empty(config_schema())
        .set(&n("host"), Field::Present(v("localhost")))
        .set(&n("port"), Field::Present(Value::Int(8080)));

    assert_eq!(connection_string(&basic), "localhost:8080");

    let with_timeout = basic.set(&n("timeout"), Field::Present(Value::Int(30)));
    assert_eq!(connection_string(&with_timeout), "localhost:8080 (timeout: 30s)");

    let with_debug = with_timeout.set(&n("debug"), Field::Present(Value::Bool(true)));
    assert_eq!(connection_string(&with_debug), "localhost:8080 (timeout: 30s) [DEBUG]");
}

#[test]
fn test_get_works_on_all_presence_states() {
    let empty = Record::empty(config_schema())
        .set(&n("host"), Field::Present(v("example.com")))
        .set(&n("port"), Field::Present(Value::Int(443)));

    assert_eq!(empty.get(&n("host")), Some(&v("example.com")));
    assert_eq!(empty.get(&n("port")), Some(&Value::Int(443)));
    assert_eq!(empty.get(&n("timeout")), None);
    assert_eq!(empty.get(&n("debug")), None);

    let full = empty
        .set(&n("timeout"), Field::Present(Value::Int(60)))
        .set(&n("debug"), Field::Present(Value::Bool(false)));

    assert_eq!(full.get(&n("timeout")), Some(&Value::Int(60)));
    assert_eq!(full.get(&n("debug")), Some(&Value::Bool(false)));
}

#[test]
fn test_access_with_explicit_import() {
    fn describe(data: &Record<Value>) -> String {
        let required = str_of(data.get(&n("required")).unwrap());
        match data.get(&n("optional")) {
            Some(Value::Int(val)) => format!("{}: {}", required, val),
            _ => required,
        }
    }

    let data_schema = vec![n("required"), n("optional")];
    let data = Record::empty(data_schema.clone())
        .set(&n("required"), Field::Present(v("test")))
        .set(&n("optional"), Field::Present(Value::Int(42)));
    assert_eq!(describe(&data), "test: 42");

    let data_without_optional =
        Record::empty(data_schema).set(&n("required"), Field::Present(v("minimal")));
    assert_eq!(describe(&data_without_optional), "minimal");
}

#[test]
fn test_generic_access() {
    fn describe(person: &Record<Value>) -> String {
        let name = str_of(person.get(&n("name")).unwrap());
        match person.get(&n("age")) {
            Some(Value::Int(age)) => format!("{} is {} years old", name, age),
            _ => format!("{} (age unknown)", name),
        }
    }

    let person_schema = vec![n("name"), n("age"), n("height")];
    let person_with_age = Record::empty(person_schema.clone())
        .set(&n("name"), Field::Present(v("Alice")))
        .set(&n("age"), Field::Present(Value::Int(30)));

    assert_eq!(describe(&person_with_age), "Alice is 30 years old");

    let person_without_age =
        Record::empty(person_schema).set(&n("name"), Field::Present(v("Bob")));

    assert_eq!(describe(&person_without_age), "Bob (age unknown)");
}

#[test]
fn test_derive_debug() {
    let person = Record::empty(vec![n("name"), n("age")])
        .set(&n("name"), Field::Present(v("Alice")))
        .set(&n("age"), Field::Present(Value::Int(30)));
    let debug_str = format!("{:?}", person);
    assert!(debug_str.contains("Alice"));
}

#[test]
fn test_derive_clone() {
    let person = Record::empty(vec![n("name"), n("age")])
        .set(&n("name"), Field::Present(v("Bob")))
        .set(&n("age"), Field::Present(Value::Int(25)));
    let cloned = person.clone();
    assert_eq!(cloned.get(&n("name")), Some(&v("Bob")));
    assert_eq!(cloned.get(&n("age")), Some(&Value::Int(25)));
}

#[test]
fn test_partial_eq() {
    let schema = vec![n("name"), n("age")];
    let p1 = Record::empty(schema.clone())
        .set(&n("name"), Field::Present(v("Alice")))
        .set(&n("age"), Field::Present(Value::Int(30)));
    let p2 = Record::empty(schema.clone())
        .set(&n("name"), Field::Present(v("Alice")))
        .set(&n("age"), Field::Present(Value::Int(30)));
    let p3 = Record::empty(schema)
        .set(&n("name"), Field::Present(v("Bob")))
        .set(&n("age"), Field::Present(Value::Int(30)));

    assert_eq!(p1, p2);
    assert_ne!(p1, p3);
}

fn describe_person(person: &Record<Value>) -> String {
    let name = str_of(person.get(&n("name")).unwrap());
    match person.get(&n("age")) {
        Some(Value::Int(age)) => format!("{} is {} years old", name, age),
        _ => format!("{} (age unknown)", name),
    }
}

fn shout_person(person: &Record<Value>) -> String {
    let name = str_of(person.get(&n("name")).unwrap());
    match person.get(&n("age")) {
        Some(Value::Int(age)) => format!("{} ({})", name.to_uppercase(), age),
        _ => name.to_uppercase(),
    }
}

#[test]
fn test_cross_module_requires_import() {
    let person = Record::empty(vec![n("name"), n("age")])
        .set(&n("name"), Field::Present(v("Alice")))
        .set(&n("age"), Field::Present(Value::Int(30)));

    let desc1 = describe_person(&person);
    let desc2 = describe_person(&person);

    assert_eq!(desc1, "Alice is 30 years old");
    assert_eq!(desc2, "Alice is 30 years old");
}

#[test]
fn test_methods_work_with_explicit_import() {
    let person = Record::empty(vec![n("name"), n("age")])
        .set(&n("name"), Field::Present(v("Bob")))
        .set(&n("age"), Field::Present(Value::Int(25)));

    assert_eq!(shout_person(&person), "BOB (25)");
}
