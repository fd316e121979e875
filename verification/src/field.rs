//! The per-field container: storage for one record field under each of the
//! three presence states, with the uniform access and conversion operations
//! every record operation is built from.

use vstd::prelude::*;

use crate::presence::Presence;

verus! {

/// Storage for one record field.
///
/// A `Present` field holds exactly one value, an `Optional` field holds an
/// `Option` (possibly empty), and an `Absent` field holds nothing.  The
/// variant is the field's presence state; it never changes in place — every
/// transition builds a new container.
#[derive(Debug, Clone, PartialEq, Eq)]
pub enum Field<T> {
    Present(T),
    Optional(Option<T>),
    Absent,
}

impl<T> Field<T> {
    /// The presence state this container is in.
    pub open spec fn state(self) -> Presence {
        match self {
            Field::Present(_) => Presence::Present,
            Field::Optional(_) => Presence::Optional,
            Field::Absent => Presence::Absent,
        }
    }

    /// The value this container carries, if any: a present value, the
    /// contents of an optional one, or nothing.
    pub open spec fn value(self) -> Option<T> {
        match self {
            Field::Present(v) => Some(v),
            Field::Optional(o) => o,
            Field::Absent => None,
        }
    }

    /// Whether this container carries a value.
    pub open spec fn carries(self) -> bool {
        self.value() is Some
    }

    /// The presence state, as a runtime tag.
    pub fn presence(&self) -> (p: Presence)
        ensures
            p == self.state(),
    {
        match self {
            Field::Present(_) => Presence::Present,
            Field::Optional(_) => Presence::Optional,
            Field::Absent => Presence::Absent,
        }
    }

    /// A reference to the carried value, if any.
    pub fn get(&self) -> (r: Option<&T>)
        ensures
            match r {
                Some(v) => self.value() == Some(*v),
                None => self.value() is None,
            },
    {
        match self {
            Field::Present(v) => Some(v),
            Field::Optional(Some(v)) => Some(v),
            Field::Optional(None) => None,
            Field::Absent => None,
        }
    }

    /// Consume the container, keeping only the carried value.
    pub fn into_option(self) -> (r: Option<T>)
        ensures
            r == self.value(),
    {
        match self {
            Field::Present(v) => Some(v),
            Field::Optional(o) => o,
            Field::Absent => None,
        }
    }

    /// Whether the field is absent.
    pub fn is_absent(&self) -> (r: bool)
        ensures
            r == (self.state() == Presence::Absent),
    {
        match self {
            Field::Absent => true,
            _ => false,
        }
    }

    /// Build a present container from a value, together with the absent
    /// remainder its extraction from a present source would leave.
    pub fn from_value(value: T) -> (r: (Field<T>, Field<T>))
        ensures
            r == (Field::Present(value), Field::<T>::Absent),
    {
        (Field::Present(value), Field::Absent)
    }

    /// Try to build a container in the target state from an option — the
    /// step extraction applies to an optional source.  A present target
    /// needs the option to hold a value and otherwise hands it back; an
    /// optional target takes the option as it is; an absent target takes
    /// nothing and leaves the whole option in the remainder.
    pub fn try_from_option(value: Option<T>, to: Presence) -> (r: Result<
        (Field<T>, Field<T>),
        Option<T>,
    >)
        ensures
            match to {
                Presence::Present => match value {
                    Some(v) => r == Result::<(Field<T>, Field<T>), Option<T>>::Ok(
                        (Field::Present(v), Field::Absent),
                    ),
                    None => r == Result::<(Field<T>, Field<T>), Option<T>>::Err(Option::<T>::None),
                },
                Presence::Optional => r == Result::<(Field<T>, Field<T>), Option<T>>::Ok(
                    (Field::Optional(value), Field::Absent),
                ),
                Presence::Absent => r == Result::<(Field<T>, Field<T>), Option<T>>::Ok(
                    (Field::Absent, Field::Optional(value)),
                ),
            },
    {
        match to {
            Presence::Present => match value {
                Some(v) => Ok((Field::Present(v), Field::Absent)),
                None => Err(None),
            },
            Presence::Optional => Ok((Field::Optional(value), Field::Absent)),
            Presence::Absent => Ok((Field::Absent, Field::Optional(value))),
        }
    }

    /// Combination of two containers of the same schema field, where `other`
    /// wins whenever it carries a value and `self` is the fallback.
    pub open spec fn or_spec(self, other: Field<T>) -> Field<T> {
        match other {
            Field::Present(v) => Field::Present(v),
            Field::Optional(ob) => match self {
                Field::Present(va) => Field::Present(
                    match ob {
                        Some(vb) => vb,
                        None => va,
                    },
                ),
                Field::Optional(oa) => Field::Optional(
                    match ob {
                        Some(vb) => Some(vb),
                        None => oa,
                    },
                ),
                Field::Absent => Field::Optional(ob),
            },
            Field::Absent => self,
        }
    }

    /// Combine two containers of the same schema field: `other` wins whenever
    /// it carries a value, `self` is the fallback.  The result's state is
    /// `Presence::or` of the two states, and the carried value is `other`'s
    /// whenever `other` carries one.
    pub fn or(self, other: Field<T>) -> (r: Field<T>)
        ensures
            r == self.or_spec(other),
            r.state() == self.state().or_spec(other.state()),
            r.value() == if other.carries() {
                other.value()
            } else {
                self.value()
            },
    {
        match other {
            Field::Present(v) => Field::Present(v),
            Field::Optional(ob) => match self {
                Field::Present(va) => Field::Present(
                    match ob {
                        Some(vb) => vb,
                        None => va,
                    },
                ),
                Field::Optional(oa) => Field::Optional(
                    match ob {
                        Some(vb) => Some(vb),
                        None => oa,
                    },
                ),
                Field::Absent => Field::Optional(ob),
            },
            Field::Absent => self,
        }
    }

    /// The pair (projected container, remainder) produced by extracting this
    /// container toward the target state `to`.
    pub open spec fn extract_spec(self, to: Presence) -> (Field<T>, Field<T>) {
        match to {
            Presence::Absent => (Field::Absent, self),
            Presence::Optional => (Field::Optional(self.value()), Field::Absent),
            Presence::Present => (
                Field::Present(
                    match self.value() {
                        Some(v) => v,
                        None => arbitrary(),
                    },
                ),
                Field::Absent,
            ),
        }
    }

    /// Extract this container toward the target state `to`, yielding the
    /// projected container and the remainder.  Defined exactly for the total
    /// projections: no value is ever required that the source cannot supply.
    pub fn extract_to(self, to: Presence) -> (r: (Field<T>, Field<T>))
        requires
            self.state().projects_to(to),
        ensures
            r == self.extract_spec(to),
    {
        match to {
            Presence::Absent => (Field::Absent, self),
            Presence::Optional => (Field::Optional(self.into_option()), Field::Absent),
            Presence::Present => match self {
                Field::Present(v) => (Field::Present(v), Field::Absent),
                _ => (Field::Absent, Field::Absent),  // unreachable: projects_to rules it out
            },
        }
    }

    /// Whether a fallible extraction of this container toward `to` fails:
    /// only a `Present` target finding an empty `Optional` source does.
    pub open spec fn try_extract_fails(self, to: Presence) -> bool {
        to == Presence::Present && self.state() == Presence::Optional && !self.carries()
    }

    /// Fallible extraction toward `to`: everything `extract_to` does, plus
    /// `Optional` to `Present`, which succeeds exactly when the option holds
    /// a value and otherwise hands the original container back.
    pub fn try_extract_to(self, to: Presence) -> (r: Result<(Field<T>, Field<T>), Field<T>>)
        requires
            self.state().try_projects_to(to),
        ensures
            self.try_extract_fails(to) ==> r == Result::<(Field<T>, Field<T>), Field<T>>::Err(self),
            !self.try_extract_fails(to) ==> r == Result::<(Field<T>, Field<T>), Field<T>>::Ok(
                self.extract_spec(to),
            ),
    {
        match to {
            Presence::Absent => Ok((Field::Absent, self)),
            Presence::Optional => Ok((Field::Optional(self.into_option()), Field::Absent)),
            Presence::Present => match self {
                Field::Present(v) => Ok((Field::Present(v), Field::Absent)),
                Field::Optional(Some(v)) => Ok((Field::Present(v), Field::Absent)),
                Field::Optional(None) => Err(Field::Optional(None)),
                Field::Absent => Err(Field::Absent),  // unreachable: try_projects_to rules it out
            },
        }
    }

    /// The container produced by converting this one to the target state `to`
    /// under the split table, which also admits `Absent` to `Optional`.
    pub open spec fn convert_spec(self, to: Presence) -> Field<T> {
        match to {
            Presence::Absent => Field::Absent,
            Presence::Optional => Field::Optional(self.value()),
            Presence::Present => Field::Present(
                match self.value() {
                    Some(v) => v,
                    None => arbitrary(),
                },
            ),
        }
    }

    /// Convert this container to the target state `to`, discarding what the
    /// target cannot hold.  Defined for the split table: every total
    /// projection, plus `Absent` to `Optional` (an empty option).
    pub fn convert_to(self, to: Presence) -> (r: Field<T>)
        requires
            self.state().converts_to(to),
        ensures
            r == self.convert_spec(to),
    {
        match to {
            Presence::Absent => Field::Absent,
            Presence::Optional => Field::Optional(self.into_option()),
            Presence::Present => match self {
                Field::Present(v) => Field::Present(v),
                _ => Field::Absent,  // unreachable: converts_to rules it out
            },
        }
    }

    /// Split this container toward the target state `to` under the split
    /// table, yielding the selected container and the remainder.  The
    /// remainder keeps the source exactly when the target consumes nothing.
    pub fn split_to(self, to: Presence) -> (r: (Field<T>, Field<T>))
        requires
            self.state().converts_to(to),
        ensures
            r.0 == self.convert_spec(to),
            r.1 == if to == Presence::Absent {
                self
            } else {
                Field::<T>::Absent
            },
    {
        match to {
            Presence::Absent => (Field::Absent, self),
            Presence::Optional => (Field::Optional(self.into_option()), Field::Absent),
            Presence::Present => match self {
                Field::Present(v) => (Field::Present(v), Field::Absent),
                _ => (Field::Absent, Field::Absent),  // unreachable: converts_to rules it out
            },
        }
    }

    /// Fallible split toward `to`: everything `split_to` does, plus
    /// `Optional` to `Present`, which succeeds exactly when the option holds
    /// a value and otherwise hands the original container back.
    pub fn try_split_to(self, to: Presence) -> (r: Result<(Field<T>, Field<T>), Field<T>>)
        requires
            self.state().try_converts_to(to),
        ensures
            self.try_extract_fails(to) ==> r == Result::<(Field<T>, Field<T>), Field<T>>::Err(self),
            !self.try_extract_fails(to) ==> r == Result::<(Field<T>, Field<T>), Field<T>>::Ok(
                (
                    self.convert_spec(to),
                    if to == Presence::Absent {
                        self
                    } else {
                        Field::<T>::Absent
                    },
                ),
            ),
    {
        match to {
            Presence::Absent => Ok((Field::Absent, self)),
            Presence::Optional => Ok((Field::Optional(self.into_option()), Field::Absent)),
            Presence::Present => match self {
                Field::Present(v) => Ok((Field::Present(v), Field::Absent)),
                Field::Optional(Some(v)) => Ok((Field::Present(v), Field::Absent)),
                Field::Optional(None) => Err(Field::Optional(None)),
                Field::Absent => Err(Field::Absent),  // unreachable: try_converts_to rules it out
            },
        }
    }

    /// Wrap a present value into an optional one; other states are unchanged
    /// except that an absent field stays absent.
    pub fn wrap_optional(self) -> (r: Field<T>)
        requires
            self.state() != Presence::Absent,
        ensures
            r == Field::Optional(self.value()),
    {
        Field::Optional(self.into_option())
    }

    /// Demote the field to absent, discarding any value it carried.
    pub fn unset(self) -> (r: Field<T>)
        ensures
            r == Field::<T>::Absent,
    {
        Field::Absent
    }

    /// Promote the field to present, if it carries a value: `Present` stays,
    /// `Optional(Some v)` becomes `Present(v)`, and anything else fails with
    /// the original container.
    pub fn require(self) -> (r: Result<Field<T>, Field<T>>)
        ensures
            self.carries() ==> r == Result::<Field<T>, Field<T>>::Ok(
                Field::Present(self.value()->Some_0),
            ),
            !self.carries() ==> r == Result::<Field<T>, Field<T>>::Err(self),
    {
        match self {
            Field::Present(v) => Ok(Field::Present(v)),
            Field::Optional(Some(v)) => Ok(Field::Present(v)),
            Field::Optional(None) => Err(Field::Optional(None)),
            Field::Absent => Err(Field::Absent),
        }
    }
}

/// Whether a field container is absent.
pub fn is_absent<T>(field: &Field<T>) -> (r: bool)
    ensures
        r == (field.state() == Presence::Absent),
{
    field.is_absent()
}

} // verus!
