use structural_typing::access::{Access, InferPresence, PresenceConvert};
use structural_typing::{Field, Presence};

#[test]
fn field_get_and_remove() {
    let present: Field<u64> = Field::Present(7);
    assert_eq!(present.get(), Some(&7));
    assert_eq!(present.remove(), Some(7));

    let optional: Field<u64> = Field::Optional(Some(8));
    assert_eq!(optional.get(), Some(&8));

    let empty_optional: Field<u64> = Field::Optional(None);
    assert_eq!(empty_optional.get(), None);

    let absent: Field<u64> = Field::Absent;
    assert_eq!(absent.get(), None);
    assert!(absent.is_absent());
    assert!(structural_typing::field::is_absent(&Field::<u64>::Absent));
}

#[test]
fn field_presence_tags() {
    assert_eq!(Field::Present(1u64).presence(), Presence::Present);
    assert_eq!(Field::<u64>::Optional(None).presence(), Presence::Optional);
    assert_eq!(Field::<u64>::Absent.presence(), Presence::Absent);
    assert_eq!(Field::Present(1u64).infer_presence(), Presence::Present);
}

#[test]
fn field_or_prefers_second_when_it_carries() {
    let a: Field<u64> = Field::Present(1);
    let b: Field<u64> = Field::Optional(Some(2));
    assert_eq!(a.or(b), Field::Present(2));

    let a: Field<u64> = Field::Present(1);
    let b: Field<u64> = Field::Optional(None);
    assert_eq!(a.or(b), Field::Present(1));

    let a: Field<u64> = Field::Absent;
    let b: Field<u64> = Field::Optional(None);
    assert_eq!(a.or(b), Field::Optional(None));

    let a: Field<u64> = Field::Optional(Some(3));
    let b: Field<u64> = Field::Absent;
    assert_eq!(a.or(b), Field::Optional(Some(3)));
}

#[test]
fn field_extract_keeps_remainder_for_absent_target() {
    let f: Field<u64> = Field::Present(5);
    assert_eq!(f.extract_to(Presence::Absent), (Field::Absent, Field::Present(5)));

    let f: Field<u64> = Field::Present(5);
    assert_eq!(f.extract_to(Presence::Optional), (Field::Optional(Some(5)), Field::Absent));

    let f: Field<u64> = Field::Present(5);
    assert_eq!(f.extract_to(Presence::Present), (Field::Present(5), Field::Absent));
}

#[test]
fn field_try_extract_fails_only_on_empty_optional() {
    let f: Field<u64> = Field::Optional(Some(5));
    assert_eq!(f.try_extract_to(Presence::Present), Ok((Field::Present(5), Field::Absent)));

    let f: Field<u64> = Field::Optional(None);
    assert_eq!(f.try_extract_to(Presence::Present), Err(Field::Optional(None)));
}

#[test]
fn field_split_admits_absent_to_optional() {
    let f: Field<u64> = Field::Absent;
    assert_eq!(f.split_to(Presence::Optional), (Field::Optional(None), Field::Absent));
    let f: Field<u64> = Field::Absent;
    assert_eq!(f.try_split_to(Presence::Optional), Ok((Field::Optional(None), Field::Absent)));
}

#[test]
fn field_state_machine_edges() {
    // set: absent -> present; unset: present -> absent
    let f: Field<u64> = Field::Present(4);
    assert_eq!(f.unset(), Field::Absent);

    // wrap-optional: present -> optional, keeping the value
    let f: Field<u64> = Field::Present(4);
    assert_eq!(f.wrap_optional(), Field::Optional(Some(4)));

    // require: optional -> present when a value is held, failing otherwise
    let f: Field<u64> = Field::Optional(Some(4));
    assert_eq!(f.require(), Ok(Field::Present(4)));
    let f: Field<u64> = Field::Optional(None);
    assert_eq!(f.require(), Err(Field::Optional(None)));
    let f: Field<u64> = Field::Present(4);
    assert_eq!(f.require(), Ok(Field::Present(4)));
}

#[test]
fn field_presence_convert_table() {
    let f: Field<u64> = Field::Present(9);
    assert_eq!(f.presence_convert(Presence::Optional), Field::Optional(Some(9)));
    let f: Field<u64> = Field::Present(9);
    assert_eq!(f.presence_convert(Presence::Absent), Field::Absent);
    let f: Field<u64> = Field::Optional(Some(9));
    assert_eq!(f.presence_convert(Presence::Absent), Field::Absent);
    let f: Field<u64> = Field::Absent;
    assert_eq!(f.presence_convert(Presence::Optional), Field::Optional(None));
}

#[test]
fn presence_or_table() {
    assert_eq!(Presence::Absent.or(Presence::Present), Presence::Present);
    assert_eq!(Presence::Optional.or(Presence::Present), Presence::Present);
    assert_eq!(Presence::Present.or(Presence::Optional), Presence::Present);
    assert_eq!(Presence::Absent.or(Presence::Optional), Presence::Optional);
    assert_eq!(Presence::Optional.or(Presence::Absent), Presence::Optional);
    assert_eq!(Presence::Present.or(Presence::Absent), Presence::Present);
    assert_eq!(Presence::Absent.or(Presence::Absent), Presence::Absent);
}

#[test]
fn presence_remainder_table() {
    assert_eq!(Presence::Present.remainder_from(Presence::Present), Presence::Absent);
    assert_eq!(Presence::Optional.remainder_from(Presence::Optional), Presence::Absent);
    assert_eq!(Presence::Absent.remainder_from(Presence::Present), Presence::Present);
    assert_eq!(Presence::Absent.remainder_from(Presence::Optional), Presence::Optional);
    assert_eq!(Presence::Absent.remainder_from(Presence::Absent), Presence::Absent);
}

#[test]
fn presence_projection_tables() {
    assert!(Presence::Present.can_project_to(Presence::Present));
    assert!(Presence::Present.can_project_to(Presence::Optional));
    assert!(Presence::Present.can_project_to(Presence::Absent));
    assert!(Presence::Optional.can_project_to(Presence::Optional));
    assert!(Presence::Optional.can_project_to(Presence::Absent));
    assert!(Presence::Absent.can_project_to(Presence::Absent));
    assert!(!Presence::Optional.can_project_to(Presence::Present));
    assert!(!Presence::Absent.can_project_to(Presence::Present));
    assert!(!Presence::Absent.can_project_to(Presence::Optional));

    assert!(Presence::Optional.can_try_project_to(Presence::Present));
    assert!(!Presence::Absent.can_try_project_to(Presence::Present));

    assert!(Presence::Absent.can_convert_to(Presence::Optional));
    assert!(!Presence::Absent.can_convert_to(Presence::Present));
}

#[test]
fn field_construction_helpers() {
    assert_eq!(Field::from_value(6u64), (Field::Present(6), Field::Absent));

    assert_eq!(
        Field::try_from_option(Some(6u64), Presence::Present),
        Ok((Field::Present(6), Field::Absent))
    );
    assert_eq!(Field::<u64>::try_from_option(None, Presence::Present), Err(None));
    assert_eq!(
        Field::<u64>::try_from_option(None, Presence::Optional),
        Ok((Field::Optional(None), Field::Absent))
    );
    assert_eq!(
        Field::try_from_option(Some(6u64), Presence::Absent),
        Ok((Field::Absent, Field::Optional(Some(6))))
    );
}
