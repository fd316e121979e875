//! Uniform field access: one interface over all three presence states, so
//! that code can read a field without knowing whether the field is present,
//! optional or absent.

use vstd::prelude::*;

use crate::field::Field;
use crate::presence::Presence;

verus! {

/// Uniform access to one field's container, whatever its presence state.
pub trait Access<T>: Sized {
    /// The presence state of this container.
    spec fn presence_of(&self) -> Presence;

    /// The value this container carries, if any.
    spec fn value_of(&self) -> Option<T>;

    /// A reference to the carried value, if any.
    fn get(&self) -> (r: Option<&T>)
        ensures
            match r {
                Some(v) => self.value_of() == Some(*v),
                None => self.value_of() is None,
            },
    ;

    /// Consume the container, keeping only the carried value.
    fn remove(self) -> (r: Option<T>)
        ensures
            r == self.value_of(),
    ;

    /// Whether the field is absent.
    fn is_absent(&self) -> (r: bool)
        ensures
            r == (self.presence_of() == Presence::Absent),
    ;
}

impl<T> Access<T> for Field<T> {
    open spec fn presence_of(&self) -> Presence {
        self.state()
    }

    open spec fn value_of(&self) -> Option<T> {
        self.value()
    }

    fn get(&self) -> (r: Option<&T>) {
        Field::get(self)
    }

    fn remove(self) -> (r: Option<T>) {
        self.into_option()
    }

    fn is_absent(&self) -> (r: bool) {
        Field::is_absent(self)
    }
}

/// The presence state inferred from the shape of a container: a bare value
/// is present, an option is optional, a marker holding nothing is absent.
pub trait InferPresence {
    /// The presence state this value's shape stands for.
    spec fn inferred(&self) -> Presence;

    /// The inferred presence state, as a runtime tag.
    fn infer_presence(&self) -> (p: Presence)
        ensures
            p == self.inferred(),
    ;
}

impl<T> InferPresence for Field<T> {
    open spec fn inferred(&self) -> Presence {
        self.state()
    }

    fn infer_presence(&self) -> (p: Presence) {
        self.presence()
    }
}

/// Conversion between presence states: keep a value, wrap it, or discard
/// it, following the conversion table — never inventing a value the source
/// does not hold.
pub trait PresenceConvert<T>: Sized {
    /// Whether this container converts to the target state.
    spec fn convert_ok(&self, to: Presence) -> bool;

    /// Whether `converted` is this container converted to `to`.
    spec fn is_conversion_of(converted: &Self, source: &Self, to: Presence) -> bool;

    /// Convert this container to the target state.
    fn presence_convert(self, to: Presence) -> (r: Self)
        requires
            self.convert_ok(to),
        ensures
            Self::is_conversion_of(&r, &self, to),
    ;
}

impl<T> PresenceConvert<T> for Field<T> {
    open spec fn convert_ok(&self, to: Presence) -> bool {
        self.state().converts_to(to)
    }

    open spec fn is_conversion_of(converted: &Self, source: &Self, to: Presence) -> bool {
        *converted == source.convert_spec(to)
    }

    fn presence_convert(self, to: Presence) -> (r: Self) {
        self.convert_to(to)
    }
}

} // verus!
