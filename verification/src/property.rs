//! Properties: named fields as first-class values, and the record
//! operations that address fields by name.

use vstd::prelude::*;

use crate::field::Field;
use crate::presence::Presence;
use crate::record::{FieldEntry, Record, has_name};

verus! {

/// A named property of a record: something that has a field name.
pub trait Property {
    /// The property's name.
    spec fn name_of(&self) -> Seq<char>;

    /// The property's name, as a string.
    fn property_name(&self) -> (r: &String)
        ensures
            r@ == self.name_of(),
    ;
}

impl<T> Property for FieldEntry<T> {
    open spec fn name_of(&self) -> Seq<char> {
        self.name@
    }

    fn property_name(&self) -> (r: &String) {
        &self.name
    }
}

/// Membership of a named field in a record-shaped value.
pub trait Has {
    /// Whether the value has a field named `name`.
    spec fn has_field(&self, name: Seq<char>) -> bool;

    /// Whether the value has a field named `name`, as a runtime test.
    fn has(&self, name: &String) -> (r: bool)
        ensures
            r == self.has_field(name@),
    ;
}

impl<T> Has for Record<T> {
    open spec fn has_field(&self, name: Seq<char>) -> bool {
        has_name(self.entries(), name)
    }

    fn has(&self, name: &String) -> (r: bool) {
        Record::has(self, name)
    }
}

/// Consuming a fully present value into its field values.
pub trait IntoValues<T>: Sized {
    /// Whether every field is present, so the values can all be taken.
    spec fn all_present(&self) -> bool;

    /// Whether `values` are the field values of `source`, in schema order.
    spec fn are_values_of(values: Seq<T>, source: &Self) -> bool;

    /// Consume the value, yielding every field's value in schema order.
    fn into_values(self) -> (r: Vec<T>)
        requires
            self.all_present(),
        ensures
            Self::are_values_of(r@, &self),
    ;
}

impl<T> IntoValues<T> for Record<T> {
    open spec fn all_present(&self) -> bool {
        forall|i: int|
            0 <= i < self.entries().len() ==> (#[trigger] self.entries()[i].field).state()
                == Presence::Present
    }

    open spec fn are_values_of(values: Seq<T>, source: &Self) -> bool {
        &&& values.len() == source.entries().len()
        &&& forall|i: int|
            0 <= i < source.entries().len() ==> #[trigger] source.entries()[i].field
                == Field::Present(values[i])
    }

    fn into_values(self) -> (r: Vec<T>) {
        Record::into_values(self)
    }
}

/// Taking one present field's value out of a value in place, leaving the
/// field absent.
pub trait PartialTake<T> {
    /// Whether the field named `name` is present, so its value can be taken.
    spec fn take_ok(&self, name: Seq<char>) -> bool;

    /// Whether `after` is `before` with the field named `name` emptied to
    /// absent and its value `value` taken out.
    spec fn is_taken_from(after: &Self, before: &Self, name: Seq<char>, value: T) -> bool;

    /// Take the value of the present field named `name`, leaving that field
    /// absent and every other field as it was.
    fn partial_take(&mut self, name: &String) -> (v: T)
        requires
            old(self).take_ok(name@),
        ensures
            Self::is_taken_from(final(self), old(self), name@, v),
    ;
}

impl<T> PartialTake<T> for Record<T> {
    open spec fn take_ok(&self, name: Seq<char>) -> bool {
        &&& self.wf()
        &&& has_name(self.entries(), name)
        &&& forall|j: int|
            0 <= j < self.entries().len() && #[trigger] self.entries()[j].name@ == name
                ==> self.entries()[j].field.state() == Presence::Present
    }

    open spec fn is_taken_from(after: &Self, before: &Self, name: Seq<char>, value: T) -> bool {
        &&& after.entries().len() == before.entries().len()
        &&& forall|j: int|
            0 <= j < before.entries().len() && before.entries()[j].name@ != name
                ==> #[trigger] after.entries()[j] == before.entries()[j]
        &&& forall|j: int|
            0 <= j < before.entries().len() && #[trigger] before.entries()[j].name@ == name ==> {
                &&& before.entries()[j].field == Field::Present(value)
                &&& after.entries()[j] == (FieldEntry {
                    name: before.entries()[j].name,
                    field: Field::<T>::Absent,
                })
            }
        &&& after.wf()
    }

    fn partial_take(&mut self, name: &String) -> (v: T) {
        self.take(name)
    }
}

/// Appending a new present field to a value's schema.
pub trait Insert<T>: Sized {
    /// Whether a field named `name` may be appended.
    spec fn insert_ok(&self, name: Seq<char>) -> bool;

    /// Whether `after` is `before` with a present field `name` holding
    /// `value` appended.
    spec fn is_inserted(after: &Self, before: &Self, name: String, value: T) -> bool;

    /// Append a new present field holding `value`.
    fn insert(self, name: String, value: T) -> (r: Self)
        requires
            self.insert_ok(name@),
        ensures
            Self::is_inserted(&r, &self, name, value),
    ;
}

impl<T> Insert<T> for Record<T> {
    open spec fn insert_ok(&self, name: Seq<char>) -> bool {
        self.wf() && !has_name(self.entries(), name)
    }

    open spec fn is_inserted(after: &Self, before: &Self, name: String, value: T) -> bool {
        after.entries() == before.entries().push(
            FieldEntry { name, field: Field::Present(value) },
        ) && after.wf()
    }

    fn insert(self, name: String, value: T) -> (r: Self) {
        Record::insert(self, name, value)
    }
}

} // verus!
