//! Record values: a schema-shaped list of named field containers, together
//! with the operations that combine, partition and reshape them.

use vstd::prelude::*;

use crate::field::Field;
use crate::presence::Presence;

verus! {

/// One named field of a record: the field's name and its container.
#[derive(Debug, Clone, PartialEq, Eq)]
pub struct FieldEntry<T> {
    pub name: String,
    pub field: Field<T>,
}

/// Whether a sequence of entries names every field at most once.
pub open spec fn distinct_entry_names<T>(s: Seq<FieldEntry<T>>) -> bool {
    forall|i: int, j: int|
        0 <= i < j < s.len() ==> #[trigger] s[i].name@ != #[trigger] s[j].name@
}

/// Whether a sequence of field names holds no name twice.
pub open spec fn distinct_names(s: Seq<String>) -> bool {
    forall|i: int, j: int| 0 <= i < j < s.len() ==> #[trigger] s[i]@ != #[trigger] s[j]@
}

/// Whether some entry of `s` is named `name`.
pub open spec fn has_name<T>(s: Seq<FieldEntry<T>>, name: Seq<char>) -> bool {
    exists|i: int| 0 <= i < s.len() && #[trigger] s[i].name@ == name
}

/// Whether every pair in `required` names some field of `schema`.
pub open spec fn names_covered<T>(required: Seq<(String, T)>, schema: Seq<String>) -> bool {
    forall|k: int|
        0 <= k < required.len() ==> exists|j: int|
            0 <= j < schema.len() && #[trigger] schema[j]@ == (#[trigger] required[k]).0@
}

/// A record value: one field container per schema field, each independently
/// `Present`, `Optional` or `Absent`.
///
/// The field names are the schema; they are pairwise distinct
/// (`Record::wf`) and fixed by construction — the operations below change
/// containers and states, never the schema, except for the explicit
/// schema-editing operations `insert_field` and `remove`.
#[derive(Debug, Clone, PartialEq, Eq)]
pub struct Record<T> {
    fields: Vec<FieldEntry<T>>,
}

impl<T> Record<T> {
    /// The entries of the record, in schema order.
    pub closed spec fn entries(self) -> Seq<FieldEntry<T>> {
        self.fields@
    }

    /// Well-formedness: every field name occurs at most once.
    pub open spec fn wf(self) -> bool {
        distinct_entry_names(self.entries())
    }

    /// The record's shape: the presence state of each field, in schema order.
    pub open spec fn shape(self) -> Seq<Presence> {
        Seq::new(self.entries().len(), |i: int| self.entries()[i].field.state())
    }

    /// An empty record over the given schema: every field absent.
    pub fn empty(schema: Vec<String>) -> (r: Record<T>)
        requires
            distinct_names(schema@),
        ensures
            r.entries().len() == schema@.len(),
            forall|i: int|
                0 <= i < schema@.len() ==> #[trigger] r.entries()[i] == (FieldEntry {
                    name: schema@[i],
                    field: Field::<T>::Absent,
                }),
            r.wf(),
    {
        let ghost orig = schema@;
        let mut rest = schema;
        let mut fields: Vec<FieldEntry<T>> = Vec::new();
        while rest.len() > 0
            invariant
                rest@ =~= orig.skip(fields@.len() as int),
                fields@.len() + rest@.len() == orig.len(),
                forall|i: int|
                    0 <= i < fields@.len() ==> #[trigger] fields@[i] == (FieldEntry {
                        name: orig[i],
                        field: Field::<T>::Absent,
                    }),
            decreases rest@.len(),
        {
            let name = rest.remove(0);
            fields.push(FieldEntry { name, field: Field::Absent });
        }
        let r = Record { fields };
        proof {
            assert forall|i: int, j: int| 0 <= i < j < r.entries().len() implies #[trigger] r
                .entries()[i].name@ != #[trigger] r.entries()[j].name@ by {
                assert(r.entries()[i].name == orig[i]);
                assert(r.entries()[j].name == orig[j]);
            }
        }
        r
    }

    /// An empty record over the given schema whose always-required fields
    /// are supplied up front: each field named in `required` starts present
    /// with its value, every other field starts absent.
    pub fn with_required(schema: Vec<String>, required: Vec<(String, T)>) -> (r: Record<T>)
        requires
            distinct_names(schema@),
            names_covered(required@, schema@),
            forall|k1: int, k2: int|
                0 <= k1 < k2 < required@.len() ==> (#[trigger] required@[k1]).0@ != (
                #[trigger] required@[k2]).0@,
        ensures
            r.wf(),
            r.entries().len() == schema@.len(),
            forall|j: int|
                0 <= j < schema@.len() ==> (#[trigger] r.entries()[j]).name == schema@[j],
            forall|j: int, k: int|
                0 <= j < schema@.len() && 0 <= k < required@.len() && schema@[j]@ == (
                #[trigger] required@[k]).0@ ==> (#[trigger] r.entries()[j]).field
                    == Field::Present(required@[k].1),
            forall|j: int|
                0 <= j < schema@.len() && (forall|k: int|
                    0 <= k < required@.len() ==> (#[trigger] required@[k]).0@ != schema@[j]@)
                    ==> (#[trigger] r.entries()[j]).field == Field::<T>::Absent,
    {
        let ghost schema0 = schema@;
        let ghost required0 = required@;
        let mut r = Record::empty(schema);
        let mut rest = required;
        let mut done: usize = 0;
        let m = rest.len();
        proof {
            assert(required0.len() == m);
        }
        while rest.len() > 0
            invariant
                required0.len() <= usize::MAX,
                distinct_names(schema0),
                names_covered(required0, schema0),
                forall|k1: int, k2: int|
                    0 <= k1 < k2 < required0.len() ==> (#[trigger] required0[k1]).0@ != (
                    #[trigger] required0[k2]).0@,
                done + rest@.len() == required0.len(),
                rest@ =~= required0.skip(done as int),
                r.wf(),
                r.entries().len() == schema0.len(),
                forall|j: int|
                    0 <= j < schema0.len() ==> (#[trigger] r.entries()[j]).name
                        == schema0[j],
                forall|j: int, k: int|
                    0 <= j < schema0.len() && 0 <= k < done && schema0[j]@ == (
                    #[trigger] required0[k]).0@ ==> (#[trigger] r.entries()[j]).field
                        == Field::Present(required0[k].1),
                forall|j: int|
                    0 <= j < schema0.len() && (forall|k: int|
                        0 <= k < done ==> (#[trigger] required0[k]).0@ != schema0[j]@)
                        ==> (#[trigger] r.entries()[j]).field == Field::<T>::Absent,
            decreases rest@.len(),
        {
            let (name, value) = rest.remove(0);
            proof {
                assert(required0[done as int].0 == name);
                let j = choose|j: int|
                    0 <= j < schema0.len() && schema0[j]@ == required0[done as int].0@;
                assert(r.entries()[j].name@ == name@);
                assert(has_name(r.entries(), name@));
            }
            r = r.set(&name, Field::Present(value));
            done += 1;
        }
        r
    }

    /// How many fields the record has.
    pub fn len(&self) -> (n: usize)
        ensures
            n == self.entries().len(),
    {
        self.fields.len()
    }

    /// The name of the field at position `i`.
    pub fn name_at(&self, i: usize) -> (name: &String)
        requires
            i < self.entries().len(),
        ensures
            name == self.entries()[i as int].name,
    {
        &self.fields[i].name
    }

    /// The container of the field at position `i`.
    pub fn field_at(&self, i: usize) -> (field: &Field<T>)
        requires
            i < self.entries().len(),
        ensures
            field == self.entries()[i as int].field,
    {
        &self.fields[i].field
    }

    /// The position of the field named `name`, if the record has one.
    pub fn index_of(&self, name: &String) -> (r: Option<usize>)
        ensures
            match r {
                Some(i) => i < self.entries().len() && self.entries()[i as int].name@ == name@,
                None => !has_name(self.entries(), name@),
            },
    {
        let mut i: usize = 0;
        while i < self.fields.len()
            invariant
                i <= self.entries().len(),
                forall|j: int| 0 <= j < i ==> #[trigger] self.entries()[j].name@ != name@,
            decreases self.entries().len() - i,
        {
            if self.fields[i].name.eq(name) {
                return Some(i);
            }
            i += 1;
        }
        None
    }

    /// Whether the record has a field named `name`.
    pub fn has(&self, name: &String) -> (r: bool)
        ensures
            r == has_name(self.entries(), name@),
    {
        self.index_of(name).is_some()
    }

    /// The container of the field named `name`, if the record has one.
    pub fn get_field(&self, name: &String) -> (r: Option<&Field<T>>)
        requires
            self.wf(),
        ensures
            match r {
                Some(f) => exists|i: int|
                    0 <= i < self.entries().len() && #[trigger] self.entries()[i].name@ == name@
                        && self.entries()[i].field == *f,
                None => !has_name(self.entries(), name@),
            },
    {
        match self.index_of(name) {
            Some(i) => Some(&self.fields[i].field),
            None => None,
        }
    }

    /// A reference to the value carried by the field named `name`: `None` if
    /// the record has no such field, the field is absent, or its option is
    /// empty.
    pub fn get(&self, name: &String) -> (r: Option<&T>)
        requires
            self.wf(),
        ensures
            forall|i: int|
                0 <= i < self.entries().len() && #[trigger] self.entries()[i].name@ == name@
                    ==> match r {
                    Some(v) => self.entries()[i].field.value() == Some(*v),
                    None => self.entries()[i].field.value() is None,
                },
            !has_name(self.entries(), name@) ==> r is None,
    {
        match self.index_of(name) {
            Some(i) => self.fields[i].field.get(),
            None => None,
        }
    }

    /// The value carried by the field named `name`, or `default` if the
    /// record has no such field or it carries nothing.
    pub fn get_or<'a>(&'a self, name: &String, default: &'a T) -> (r: &'a T)
        requires
            self.wf(),
        ensures
            forall|i: int|
                0 <= i < self.entries().len() && #[trigger] self.entries()[i].name@ == name@
                    ==> match self.entries()[i].field.value() {
                    Some(v) => *r == v,
                    None => r == default,
                },
            !has_name(self.entries(), name@) ==> r == default,
    {
        match self.get(name) {
            Some(v) => v,
            None => default,
        }
    }

    /// Append a new field to the record's schema.
    pub fn insert_field(self, name: String, field: Field<T>) -> (r: Record<T>)
        requires
            self.wf(),
            !has_name(self.entries(), name@),
        ensures
            r.entries() == self.entries().push(FieldEntry { name, field }),
            r.wf(),
    {
        let mut fields = self.fields;
        fields.push(FieldEntry { name, field });
        let r = Record { fields };
        proof {
            assert forall|i: int, j: int| 0 <= i < j < r.entries().len() implies #[trigger] r
                .entries()[i].name@ != #[trigger] r.entries()[j].name@ by {
                if j + 1 == r.entries().len() {
                    assert(self.entries()[i].name@ != name@);
                }
            }
        }
        r
    }

    /// Append a new present field holding `value`.
    pub fn insert(self, name: String, value: T) -> (r: Record<T>)
        requires
            self.wf(),
            !has_name(self.entries(), name@),
        ensures
            r.entries() == self.entries().push(
                FieldEntry { name, field: Field::Present(value) },
            ),
            r.wf(),
    {
        self.insert_field(name, Field::Present(value))
    }

    /// Replace the container of the field named `name`.  Every other field,
    /// and the schema, are left exactly as they were.
    pub fn set(self, name: &String, field: Field<T>) -> (r: Record<T>)
        requires
            self.wf(),
            has_name(self.entries(), name@),
        ensures
            r.entries().len() == self.entries().len(),
            forall|j: int|
                0 <= j < self.entries().len() ==> #[trigger] r.entries()[j].name
                    == self.entries()[j].name,
            forall|j: int|
                0 <= j < self.entries().len() && self.entries()[j].name@ != name@
                    ==> #[trigger] r.entries()[j] == self.entries()[j],
            forall|j: int|
                0 <= j < self.entries().len() && #[trigger] self.entries()[j].name@ == name@ ==> r
                    .entries()[j].field == field,
            r.wf(),
    {
        match self.index_of(name) {
            Some(i) => {
                let mut fields = self.fields;
                let entry = fields.remove(i);
                fields.insert(i, FieldEntry { name: entry.name, field });
                let r = Record { fields };
                proof {
                    assert(r.entries() =~= self.entries().update(
                        i as int,
                        FieldEntry { name: self.entries()[i as int].name, field },
                    ));
                }
                r
            },
            None => self,
        }
    }

    /// Demote the field named `name` to absent, discarding any value it
    /// carried.  Every other field is left exactly as it was.
    pub fn unset(self, name: &String) -> (r: Record<T>)
        requires
            self.wf(),
            has_name(self.entries(), name@),
        ensures
            r.entries().len() == self.entries().len(),
            forall|j: int|
                0 <= j < self.entries().len() && self.entries()[j].name@ != name@
                    ==> #[trigger] r.entries()[j] == self.entries()[j],
            forall|j: int|
                0 <= j < self.entries().len() && #[trigger] self.entries()[j].name@ == name@ ==> r
                    .entries()[j] == (FieldEntry {
                    name: self.entries()[j].name,
                    field: Field::<T>::Absent,
                }),
            r.wf(),
    {
        let r = self.set(name, Field::Absent);
        proof {
            assert forall|j: int|
                0 <= j < self.entries().len() && #[trigger] self.entries()[j].name@
                    == name@ implies r.entries()[j] == (FieldEntry {
                name: self.entries()[j].name,
                field: Field::<T>::Absent,
            }) by {
                assert(r.entries()[j].name == self.entries()[j].name);
            }
        }
        r
    }

    /// Wrap the field named `name` into an optional one, keeping any value
    /// it carried.  The field must not be absent.
    pub fn wrap_optional(self, name: &String) -> (r: Record<T>)
        requires
            self.wf(),
            has_name(self.entries(), name@),
            forall|j: int|
                0 <= j < self.entries().len() && #[trigger] self.entries()[j].name@ == name@
                    ==> self.entries()[j].field.state() != Presence::Absent,
        ensures
            r.entries().len() == self.entries().len(),
            forall|j: int|
                0 <= j < self.entries().len() && self.entries()[j].name@ != name@
                    ==> #[trigger] r.entries()[j] == self.entries()[j],
            forall|j: int|
                0 <= j < self.entries().len() && #[trigger] self.entries()[j].name@ == name@ ==> r
                    .entries()[j] == (FieldEntry {
                    name: self.entries()[j].name,
                    field: Field::Optional(self.entries()[j].field.value()),
                }),
            r.wf(),
    {
        match self.index_of(name) {
            Some(i) => {
                let mut fields = self.fields;
                let entry = fields.remove(i);
                let wrapped = entry.field.wrap_optional();
                fields.insert(i, FieldEntry { name: entry.name, field: wrapped });
                let r = Record { fields };
                proof {
                    assert(r.entries() =~= self.entries().update(
                        i as int,
                        FieldEntry {
                            name: self.entries()[i as int].name,
                            field: Field::Optional(self.entries()[i as int].field.value()),
                        },
                    ));
                }
                r
            },
            None => self,
        }
    }

    /// Promote the field named `name` to present.  Succeeds exactly when the
    /// field carries a value; otherwise the record is consumed and nothing is
    /// returned.
    pub fn require_field(self, name: &String) -> (r: Option<Record<T>>)
        requires
            self.wf(),
        ensures
            match r {
                Some(out) => {
                    &&& has_name(self.entries(), name@)
                    &&& out.entries().len() == self.entries().len()
                    &&& forall|j: int|
                        0 <= j < self.entries().len() && self.entries()[j].name@ != name@
                            ==> #[trigger] out.entries()[j] == self.entries()[j]
                    &&& forall|j: int|
                        0 <= j < self.entries().len() && #[trigger] self.entries()[j].name@
                            == name@ ==> self.entries()[j].field.carries() && out.entries()[j] == (
                        FieldEntry {
                            name: self.entries()[j].name,
                            field: Field::Present(self.entries()[j].field.value()->Some_0),
                        })
                    &&& out.wf()
                },
                None => !has_name(self.entries(), name@) || (forall|j: int|
                    0 <= j < self.entries().len() && #[trigger] self.entries()[j].name@ == name@
                        ==> !self.entries()[j].field.carries()),
            },
    {
        match self.index_of(name) {
            Some(i) => {
                let mut fields = self.fields;
                let entry = fields.remove(i);
                match entry.field.require() {
                    Ok(f) => {
                        fields.insert(i, FieldEntry { name: entry.name, field: f });
                        let r = Record { fields };
                        proof {
                            assert(r.entries() =~= self.entries().update(
                                i as int,
                                FieldEntry {
                                    name: self.entries()[i as int].name,
                                    field: Field::Present(
                                        self.entries()[i as int].field.value()->Some_0,
                                    ),
                                },
                            ));
                        }
                        Some(r)
                    },
                    Err(_) => None,
                }
            },
            None => None,
        }
    }

    /// Take the value of the present field named `name` out of the record,
    /// leaving that field absent and every other field as it was.
    pub fn take(&mut self, name: &String) -> (v: T)
        requires
            old(self).wf(),
            has_name(old(self).entries(), name@),
            forall|j: int|
                0 <= j < old(self).entries().len() && #[trigger] old(self).entries()[j].name@
                    == name@ ==> old(self).entries()[j].field.state() == Presence::Present,
        ensures
            final(self).entries().len() == old(self).entries().len(),
            forall|j: int|
                0 <= j < old(self).entries().len() && old(self).entries()[j].name@ != name@
                    ==> #[trigger] final(self).entries()[j] == old(self).entries()[j],
            forall|j: int|
                0 <= j < old(self).entries().len() && #[trigger] old(self).entries()[j].name@
                    == name@ ==> old(self).entries()[j].field == Field::Present(v)
                    && final(self).entries()[j] == (FieldEntry {
                    name: old(self).entries()[j].name,
                    field: Field::<T>::Absent,
                }),
            final(self).wf(),
    {
        let ghost orig = self.entries();
        match self.index_of(name) {
            Some(i) => {
                let entry = self.fields.remove(i);
                match entry.field {
                    Field::Present(v) => {
                        self.fields.insert(i, FieldEntry { name: entry.name, field: Field::Absent });
                        proof {
                            assert(self.entries() =~= orig.update(
                                i as int,
                                FieldEntry { name: orig[i as int].name, field: Field::<T>::Absent },
                            ));
                        }
                        v
                    },
                    _ => unreached(),  // the field is required to be present
                }
            },
            None => unreached(),  // the field is required to exist
        }
    }

    /// Remove the present field named `name` from the record's schema,
    /// returning the shortened record and the field's value.
    pub fn remove(self, name: &String) -> (r: (Record<T>, T))
        requires
            self.wf(),
            has_name(self.entries(), name@),
            forall|j: int|
                0 <= j < self.entries().len() && #[trigger] self.entries()[j].name@ == name@
                    ==> self.entries()[j].field.state() == Presence::Present,
        ensures
            exists|i: int|
                {
                    &&& 0 <= i < self.entries().len()
                    &&& #[trigger] self.entries()[i].name@ == name@
                    &&& self.entries()[i].field == Field::Present(r.1)
                    &&& r.0.entries() == self.entries().remove(i)
                },
            r.0.wf(),
    {
        let ghost orig = self.entries();
        match self.index_of(name) {
            Some(i) => {
                let mut fields = self.fields;
                let entry = fields.remove(i);
                match entry.field {
                    Field::Present(v) => {
                        let r = Record { fields };
                        proof {
                            assert(distinct_entry_names(orig.remove(i as int)));
                        }
                        (r, v)
                    },
                    _ => unreached(),  // the field is required to be present
                }
            },
            None => unreached(),  // the field is required to exist
        }
    }

    /// Make sure the record has a field named `name` that is present: a field
    /// already carrying a value is promoted to present with that value, any
    /// other field is set to `value`, and a missing field is appended holding
    /// `value`.
    pub fn insert_default(self, name: String, value: T) -> (r: Record<T>)
        requires
            self.wf(),
        ensures
            !has_name(self.entries(), name@) ==> r.entries() == self.entries().push(
                FieldEntry { name, field: Field::Present(value) },
            ),
            has_name(self.entries(), name@) ==> {
                &&& r.entries().len() == self.entries().len()
                &&& forall|j: int|
                    0 <= j < self.entries().len() && self.entries()[j].name@ != name@
                        ==> #[trigger] r.entries()[j] == self.entries()[j]
                &&& forall|j: int|
                    0 <= j < self.entries().len() && #[trigger] self.entries()[j].name@ == name@
                        ==> r.entries()[j] == (FieldEntry {
                        name: self.entries()[j].name,
                        field: Field::Present(
                            match self.entries()[j].field.value() {
                                Some(carried) => carried,
                                None => value,
                            },
                        ),
                    })
            },
            r.wf(),
    {
        let ghost orig = self.entries();
        match self.index_of(&name) {
            Some(i) => {
                let mut fields = self.fields;
                let entry = fields.remove(i);
                let new_field = match entry.field.into_option() {
                    Some(carried) => Field::Present(carried),
                    None => Field::Present(value),
                };
                fields.insert(i, FieldEntry { name: entry.name, field: new_field });
                let r = Record { fields };
                proof {
                    assert(r.entries() =~= orig.update(
                        i as int,
                        FieldEntry {
                            name: orig[i as int].name,
                            field: Field::Present(
                                match orig[i as int].field.value() {
                                    Some(carried) => carried,
                                    None => value,
                                },
                            ),
                        },
                    ));
                }
                r
            },
            None => self.insert_field(name, Field::Present(value)),
        }
    }
}

/// Whether two entry sequences name the same fields in the same order.
pub open spec fn names_aligned<T>(a: Seq<FieldEntry<T>>, b: Seq<FieldEntry<T>>) -> bool {
    &&& a.len() == b.len()
    &&& forall|i: int| 0 <= i < a.len() ==> #[trigger] a[i].name@ == #[trigger] b[i].name@
}

/// The entries of the merge of two aligned records: for each field, `b`'s
/// container wins whenever it carries a value and `a`'s is the fallback; the
/// names are `a`'s.
pub open spec fn merge_entries<T>(a: Seq<FieldEntry<T>>, b: Seq<FieldEntry<T>>) -> Seq<
    FieldEntry<T>,
> {
    Seq::new(a.len(), |i: int| FieldEntry { name: a[i].name, field: a[i].field.or_spec(b[i].field) })
}

impl<T> Record<T> {
    /// Combine two records over the same schema, field by field: for every
    /// field, `other` wins whenever it carries a value and `self` is the
    /// fallback.  Always succeeds.
    pub fn merge(self, other: Record<T>) -> (r: Record<T>)
        requires
            self.wf(),
            names_aligned(self.entries(), other.entries()),
        ensures
            r.entries() == merge_entries(self.entries(), other.entries()),
            r.wf(),
    {
        let ghost ae = self.entries();
        let ghost be = other.entries();
        let mut rest_a = self.fields;
        let mut rest_b = other.fields;
        let mut fields: Vec<FieldEntry<T>> = Vec::new();
        while rest_a.len() > 0
            invariant
                names_aligned(ae, be),
                rest_a@ =~= ae.skip(fields@.len() as int),
                rest_b@ =~= be.skip(fields@.len() as int),
                fields@.len() <= ae.len(),
                fields@ =~= merge_entries(ae, be).subrange(0, fields@.len() as int),
            decreases rest_a@.len(),
        {
            let ea = rest_a.remove(0);
            let eb = rest_b.remove(0);
            let merged = ea.field.or(eb.field);
            fields.push(FieldEntry { name: ea.name, field: merged });
        }
        let r = Record { fields };
        proof {
            assert(r.entries() =~= merge_entries(ae, be));
            assert forall|i: int, j: int| 0 <= i < j < r.entries().len() implies #[trigger] r
                .entries()[i].name@ != #[trigger] r.entries()[j].name@ by {
                assert(ae[i].name@ != ae[j].name@);
            }
        }
        r
    }

    /// Merge `other` into this record in place: for every field, `other`'s
    /// container wins whenever it carries a value, and fields that `other`
    /// leaves absent are unchanged.
    pub fn update(&mut self, other: Record<T>)
        requires
            old(self).wf(),
            names_aligned(old(self).entries(), other.entries()),
        ensures
            final(self).entries() == merge_entries(old(self).entries(), other.entries()),
            final(self).wf(),
    {
        let mut taken = Record { fields: Vec::new() };
        core::mem::swap(self, &mut taken);
        let merged = taken.merge(other);
        *self = merged;
    }
}

/// Whether every field of `s` reaches its target state in `t` by a total
/// projection.
pub open spec fn all_project<T>(s: Seq<FieldEntry<T>>, t: Seq<Presence>) -> bool {
    &&& t.len() == s.len()
    &&& forall|i: int| 0 <= i < s.len() ==> s[i].field.state().projects_to(#[trigger] t[i])
}

/// Whether every field of `s` reaches its target state in `t` by a fallible
/// projection.
pub open spec fn all_try_project<T>(s: Seq<FieldEntry<T>>, t: Seq<Presence>) -> bool {
    &&& t.len() == s.len()
    &&& forall|i: int| 0 <= i < s.len() ==> s[i].field.state().try_projects_to(#[trigger] t[i])
}

/// Whether every field of `s` reaches its target state in `t` under the
/// split table.
pub open spec fn all_convert<T>(s: Seq<FieldEntry<T>>, t: Seq<Presence>) -> bool {
    &&& t.len() == s.len()
    &&& forall|i: int| 0 <= i < s.len() ==> s[i].field.state().converts_to(#[trigger] t[i])
}

/// Whether every field of `s` reaches its target state in `t` under the
/// fallible split table.
pub open spec fn all_try_convert<T>(s: Seq<FieldEntry<T>>, t: Seq<Presence>) -> bool {
    &&& t.len() == s.len()
    &&& forall|i: int| 0 <= i < s.len() ==> s[i].field.state().try_converts_to(#[trigger] t[i])
}

/// The selected part of extracting (or splitting) `s` toward the target
/// shape `t`: each field converted to its target state.
pub open spec fn selected_entries<T>(s: Seq<FieldEntry<T>>, t: Seq<Presence>) -> Seq<
    FieldEntry<T>,
> {
    Seq::new(s.len(), |i: int| FieldEntry { name: s[i].name, field: s[i].field.convert_spec(t[i]) })
}

/// The remainder of extracting (or splitting) `s` toward the target shape
/// `t`: a field whose target consumed it reverts to absent, a field whose
/// target is absent is kept untouched.
pub open spec fn remainder_entries<T>(s: Seq<FieldEntry<T>>, t: Seq<Presence>) -> Seq<
    FieldEntry<T>,
> {
    Seq::new(
        s.len(),
        |i: int|
            FieldEntry {
                name: s[i].name,
                field: if t[i] == Presence::Absent {
                    s[i].field
                } else {
                    Field::<T>::Absent
                },
            },
    )
}

/// Whether some field of `s` makes a fallible extraction toward `t` fail: a
/// `Present` target finding an empty `Optional` source.
pub open spec fn some_extract_failure<T>(s: Seq<FieldEntry<T>>, t: Seq<Presence>) -> bool {
    exists|i: int| 0 <= i < s.len() && (#[trigger] s[i].field).try_extract_fails(t[i])
}

impl<T> Record<T> {
    /// Restore the original container of one field from its recombined
    /// extraction parts, guided by the field's original presence state.
    fn restore_field(combined: Field<T>, tag: Presence, Ghost(f0): Ghost<Field<T>>, Ghost(t): Ghost<
        Presence,
    >) -> (r: Field<T>)
        requires
            f0.state() == tag,
            f0.state().try_converts_to(t),
            !f0.try_extract_fails(t),
            combined == f0.convert_spec(t).or_spec(
                if t == Presence::Absent {
                    f0
                } else {
                    Field::<T>::Absent
                },
            ),
        ensures
            r == f0,
    {
        match tag {
            Presence::Present => match combined.into_option() {
                Some(v) => Field::Present(v),
                None => unreached(),  // a present field always carries its value through
            },
            Presence::Optional => Field::Optional(combined.into_option()),
            Presence::Absent => Field::Absent,
        }
    }

    /// Partition the record into the fields selected by the target shape and
    /// the remainder.  Always succeeds: every field's target state must be
    /// reachable by a total projection, so no field can demand a value that
    /// its source might not hold.
    pub fn extract(self, target: &Vec<Presence>) -> (r: (Record<T>, Record<T>))
        requires
            self.wf(),
            all_project(self.entries(), target@),
        ensures
            r.0.entries() == selected_entries(self.entries(), target@),
            r.1.entries() == remainder_entries(self.entries(), target@),
            r.0.wf(),
            r.1.wf(),
    {
        let ghost orig = self.entries();
        let ghost tgt = target@;
        let mut rest = self.fields;
        let mut sel: Vec<FieldEntry<T>> = Vec::new();
        let mut rem: Vec<FieldEntry<T>> = Vec::new();
        let mut i: usize = 0;
        let n = rest.len();
        proof {
            assert(orig.len() == n);
        }
        while rest.len() > 0
            invariant
                tgt == target@,
                all_project(orig, tgt),
                orig.len() <= usize::MAX,
                i == sel@.len(),
                i == rem@.len(),
                i + rest@.len() == orig.len(),
                rest@ =~= orig.skip(i as int),
                sel@ =~= selected_entries(orig, tgt).subrange(0, i as int),
                rem@ =~= remainder_entries(orig, tgt).subrange(0, i as int),
            decreases rest@.len(),
        {
            let e = rest.remove(0);
            let t = target[i];
            let name_for_rem = e.name.clone();
            assert(e.field.state().projects_to(t));
            let (sf, rf) = e.field.split_to(t);
            sel.push(FieldEntry { name: e.name, field: sf });
            rem.push(FieldEntry { name: name_for_rem, field: rf });
            i += 1;
            proof {
                assert(sel@ =~= selected_entries(orig, tgt).subrange(0, i as int));
                assert(rem@ =~= remainder_entries(orig, tgt).subrange(0, i as int));
            }
        }
        let r = (Record { fields: sel }, Record { fields: rem });
        proof {
            assert(r.0.entries() =~= selected_entries(orig, tgt));
            assert(r.1.entries() =~= remainder_entries(orig, tgt));
            assert forall|a: int, b: int| 0 <= a < b < orig.len() implies #[trigger] r.0.entries()[a].name@ != #[trigger] r.0.entries()[b].name@ by {
                assert(orig[a].name@ != orig[b].name@);
            }
            assert forall|a: int, b: int| 0 <= a < b < orig.len() implies #[trigger] r.1.entries()[a].name@ != #[trigger] r.1.entries()[b].name@ by {
                assert(orig[a].name@ != orig[b].name@);
            }
        }
        r
    }

    /// Partition the record like `extract`, but under the split table, which
    /// additionally lets an absent field be selected as an empty optional.
    pub fn split(self, target: &Vec<Presence>) -> (r: (Record<T>, Record<T>))
        requires
            self.wf(),
            all_convert(self.entries(), target@),
        ensures
            r.0.entries() == selected_entries(self.entries(), target@),
            r.1.entries() == remainder_entries(self.entries(), target@),
            r.0.wf(),
            r.1.wf(),
    {
        let ghost orig = self.entries();
        let ghost tgt = target@;
        let mut rest = self.fields;
        let mut sel: Vec<FieldEntry<T>> = Vec::new();
        let mut rem: Vec<FieldEntry<T>> = Vec::new();
        let mut i: usize = 0;
        let n = rest.len();
        proof {
            assert(orig.len() == n);
        }
        while rest.len() > 0
            invariant
                tgt == target@,
                all_convert(orig, tgt),
                orig.len() <= usize::MAX,
                i == sel@.len(),
                i == rem@.len(),
                i + rest@.len() == orig.len(),
                rest@ =~= orig.skip(i as int),
                sel@ =~= selected_entries(orig, tgt).subrange(0, i as int),
                rem@ =~= remainder_entries(orig, tgt).subrange(0, i as int),
            decreases rest@.len(),
        {
            let e = rest.remove(0);
            let t = target[i];
            let name_for_rem = e.name.clone();
            assert(e.field.state().converts_to(t));
            let (sf, rf) = e.field.split_to(t);
            sel.push(FieldEntry { name: e.name, field: sf });
            rem.push(FieldEntry { name: name_for_rem, field: rf });
            i += 1;
            proof {
                assert(sel@ =~= selected_entries(orig, tgt).subrange(0, i as int));
                assert(rem@ =~= remainder_entries(orig, tgt).subrange(0, i as int));
            }
        }
        let r = (Record { fields: sel }, Record { fields: rem });
        proof {
            assert(r.0.entries() =~= selected_entries(orig, tgt));
            assert(r.1.entries() =~= remainder_entries(orig, tgt));
            assert forall|a: int, b: int| 0 <= a < b < orig.len() implies #[trigger] r.0.entries()[a].name@ != #[trigger] r.0.entries()[b].name@ by {
                assert(orig[a].name@ != orig[b].name@);
            }
            assert forall|a: int, b: int| 0 <= a < b < orig.len() implies #[trigger] r.1.entries()[a].name@ != #[trigger] r.1.entries()[b].name@ by {
                assert(orig[a].name@ != orig[b].name@);
            }
        }
        r
    }

    /// Fallible extraction: like `extract`, but a field may also be selected
    /// from `Optional` into `Present`.  The whole operation succeeds exactly
    /// when no such field's option is empty; on the first empty one it stops,
    /// reconstructs the exact original record from the parts already
    /// computed, and returns it — no partially mutated record ever escapes.
    pub fn try_extract(self, target: &Vec<Presence>) -> (r: Result<
        (Record<T>, Record<T>),
        Record<T>,
    >)
        requires
            self.wf(),
            all_try_project(self.entries(), target@),
        ensures
            r is Ok <==> !some_extract_failure(self.entries(), target@),
            r matches Ok(p) ==> {
                &&& p.0.entries() == selected_entries(self.entries(), target@)
                &&& p.1.entries() == remainder_entries(self.entries(), target@)
                &&& p.0.wf()
                &&& p.1.wf()
            },
            r matches Err(original) ==> original.entries() == self.entries() && original.wf(),
    {
        let ghost orig = self.entries();
        let ghost tgt = target@;
        let mut rest = self.fields;
        let mut sel: Vec<FieldEntry<T>> = Vec::new();
        let mut rem: Vec<FieldEntry<T>> = Vec::new();
        let mut tags: Vec<Presence> = Vec::new();
        let mut i: usize = 0;
        let n = rest.len();
        proof {
            assert(orig.len() == n);
        }
        while rest.len() > 0
            invariant
                tgt == target@,
                orig == self.entries(),
                all_try_project(orig, tgt),
                distinct_entry_names(orig),
                orig.len() <= usize::MAX,
                i == sel@.len(),
                i == rem@.len(),
                i == tags@.len(),
                i + rest@.len() == orig.len(),
                rest@ =~= orig.skip(i as int),
                forall|j: int|
                    0 <= j < i ==> !(#[trigger] orig[j].field).try_extract_fails(tgt[j]),
                sel@ =~= selected_entries(orig, tgt).subrange(0, i as int),
                rem@ =~= remainder_entries(orig, tgt).subrange(0, i as int),
                forall|j: int| 0 <= j < i ==> tags@[j] == (#[trigger] orig[j].field).state(),
            decreases rest@.len(),
        {
            let e = rest.remove(0);
            let t = target[i];
            let tag = e.field.presence();
            let name_for_rem = e.name.clone();
            assert(e.field.state().try_projects_to(t));
            match e.field.try_extract_to(t) {
                Ok((sf, rf)) => {
                    sel.push(FieldEntry { name: e.name, field: sf });
                    rem.push(FieldEntry { name: name_for_rem, field: rf });
                    tags.push(tag);
                    i += 1;
                    proof {
                        assert(sel@ =~= selected_entries(orig, tgt).subrange(0, i as int));
                        assert(rem@ =~= remainder_entries(orig, tgt).subrange(0, i as int));
                    }
                },
                Err(failed) => {
                    // Reconstruct the original: recombine each processed
                    // field's (selected, remainder) pair and restore its
                    // original presence state.
                    let mut rebuilt: Vec<FieldEntry<T>> = Vec::new();
                    let mut j: usize = 0;
                    while j < i
                        invariant
                            tgt == target@,
                            all_try_project(orig, tgt),
                            j <= i <= orig.len(),
                            orig.len() <= usize::MAX,
                            sel@.len() == i - j,
                            rem@.len() == i - j,
                            tags@.len() == i,
                            forall|k: int|
                                0 <= k < i ==> !(#[trigger] orig[k].field).try_extract_fails(
                                    tgt[k],
                                ),
                            sel@ =~= selected_entries(orig, tgt).subrange(j as int, i as int),
                            rem@ =~= remainder_entries(orig, tgt).subrange(j as int, i as int),
                            forall|k: int|
                                0 <= k < i ==> tags@[k] == (#[trigger] orig[k].field).state(),
                            rebuilt@ =~= orig.subrange(0, j as int),
                        decreases i - j,
                    {
                        let se = sel.remove(0);
                        let re = rem.remove(0);
                        let tag_j = tags[j];
                        assert(se.field == orig[j as int].field.convert_spec(tgt[j as int]));
                        let combined = se.field.or(re.field);
                        let restored = Self::restore_field(
                            combined,
                            tag_j,
                            Ghost(orig[j as int].field),
                            Ghost(tgt[j as int]),
                        );
                        rebuilt.push(FieldEntry { name: se.name, field: restored });
                        j += 1;
                        proof {
                            assert(sel@ =~= selected_entries(orig, tgt).subrange(
                                j as int,
                                i as int,
                            ));
                            assert(rem@ =~= remainder_entries(orig, tgt).subrange(
                                j as int,
                                i as int,
                            ));
                            assert(rebuilt@ =~= orig.subrange(0, j as int));
                        }
                    }
                    rebuilt.push(FieldEntry { name: e.name, field: failed });
                    rebuilt.append(&mut rest);
                    let original = Record { fields: rebuilt };
                    proof {
                        assert(orig[i as int].field.try_extract_fails(tgt[i as int]));
                        assert(rebuilt@[i as int] == orig[i as int]);
                        assert forall|k: int| 0 <= k < orig.len() implies rebuilt@[k] == orig[k] by {
                            if k < i {
                                assert(orig.subrange(0, i as int)[k] == orig[k]);
                            } else if k > i {
                                assert(orig.skip(i + 1)[k - i - 1] == orig[k]);
                            }
                        }
                        assert(original.entries() =~= orig);
                    }
                    return Err(original);
                },
            }
        }
        let r = (Record { fields: sel }, Record { fields: rem });
        proof {
            assert(r.0.entries() =~= selected_entries(orig, tgt));
            assert(r.1.entries() =~= remainder_entries(orig, tgt));
            assert forall|a: int, b: int| 0 <= a < b < orig.len() implies #[trigger] r.0.entries()[a].name@ != #[trigger] r.0.entries()[b].name@ by {
                assert(orig[a].name@ != orig[b].name@);
            }
            assert forall|a: int, b: int| 0 <= a < b < orig.len() implies #[trigger] r.1.entries()[a].name@ != #[trigger] r.1.entries()[b].name@ by {
                assert(orig[a].name@ != orig[b].name@);
            }
        }
        Ok(r)
    }

    /// Fallible split: like `split`, but a field may also be selected from
    /// `Optional` into `Present`.  Succeeds exactly when no such field's
    /// option is empty; otherwise the exact original record is returned.
    pub fn try_split(self, target: &Vec<Presence>) -> (r: Result<
        (Record<T>, Record<T>),
        Record<T>,
    >)
        requires
            self.wf(),
            all_try_convert(self.entries(), target@),
        ensures
            r is Ok <==> !some_extract_failure(self.entries(), target@),
            r matches Ok(p) ==> {
                &&& p.0.entries() == selected_entries(self.entries(), target@)
                &&& p.1.entries() == remainder_entries(self.entries(), target@)
                &&& p.0.wf()
                &&& p.1.wf()
            },
            r matches Err(original) ==> original.entries() == self.entries() && original.wf(),
    {
        let ghost orig = self.entries();
        let ghost tgt = target@;
        let mut rest = self.fields;
        let mut sel: Vec<FieldEntry<T>> = Vec::new();
        let mut rem: Vec<FieldEntry<T>> = Vec::new();
        let mut tags: Vec<Presence> = Vec::new();
        let mut i: usize = 0;
        let n = rest.len();
        proof {
            assert(orig.len() == n);
        }
        while rest.len() > 0
            invariant
                tgt == target@,
                orig == self.entries(),
                all_try_convert(orig, tgt),
                distinct_entry_names(orig),
                orig.len() <= usize::MAX,
                i == sel@.len(),
                i == rem@.len(),
                i == tags@.len(),
                i + rest@.len() == orig.len(),
                rest@ =~= orig.skip(i as int),
                forall|j: int|
                    0 <= j < i ==> !(#[trigger] orig[j].field).try_extract_fails(tgt[j]),
                sel@ =~= selected_entries(orig, tgt).subrange(0, i as int),
                rem@ =~= remainder_entries(orig, tgt).subrange(0, i as int),
                forall|j: int| 0 <= j < i ==> tags@[j] == (#[trigger] orig[j].field).state(),
            decreases rest@.len(),
        {
            let e = rest.remove(0);
            let t = target[i];
            let tag = e.field.presence();
            let name_for_rem = e.name.clone();
            assert(e.field.state().try_converts_to(t));
            match e.field.try_split_to(t) {
                Ok((sf, rf)) => {
                    sel.push(FieldEntry { name: e.name, field: sf });
                    rem.push(FieldEntry { name: name_for_rem, field: rf });
                    tags.push(tag);
                    i += 1;
                    proof {
                        assert(sel@ =~= selected_entries(orig, tgt).subrange(0, i as int));
                        assert(rem@ =~= remainder_entries(orig, tgt).subrange(0, i as int));
                    }
                },
                Err(failed) => {
                    let mut rebuilt: Vec<FieldEntry<T>> = Vec::new();
                    let mut j: usize = 0;
                    while j < i
                        invariant
                            tgt == target@,
                            all_try_convert(orig, tgt),
                            j <= i <= orig.len(),
                            orig.len() <= usize::MAX,
                            sel@.len() == i - j,
                            rem@.len() == i - j,
                            tags@.len() == i,
                            forall|k: int|
                                0 <= k < i ==> !(#[trigger] orig[k].field).try_extract_fails(
                                    tgt[k],
                                ),
                            sel@ =~= selected_entries(orig, tgt).subrange(j as int, i as int),
                            rem@ =~= remainder_entries(orig, tgt).subrange(j as int, i as int),
                            forall|k: int|
                                0 <= k < i ==> tags@[k] == (#[trigger] orig[k].field).state(),
                            rebuilt@ =~= orig.subrange(0, j as int),
                        decreases i - j,
                    {
                        let se = sel.remove(0);
                        let re = rem.remove(0);
                        let tag_j = tags[j];
                        assert(se.field == orig[j as int].field.convert_spec(tgt[j as int]));
                        let combined = se.field.or(re.field);
                        let restored = Self::restore_field(
                            combined,
                            tag_j,
                            Ghost(orig[j as int].field),
                            Ghost(tgt[j as int]),
                        );
                        rebuilt.push(FieldEntry { name: se.name, field: restored });
                        j += 1;
                        proof {
                            assert(sel@ =~= selected_entries(orig, tgt).subrange(
                                j as int,
                                i as int,
                            ));
                            assert(rem@ =~= remainder_entries(orig, tgt).subrange(
                                j as int,
                                i as int,
                            ));
                            assert(rebuilt@ =~= orig.subrange(0, j as int));
                        }
                    }
                    rebuilt.push(FieldEntry { name: e.name, field: failed });
                    rebuilt.append(&mut rest);
                    let original = Record { fields: rebuilt };
                    proof {
                        assert(orig[i as int].field.try_extract_fails(tgt[i as int]));
                        assert(rebuilt@[i as int] == orig[i as int]);
                        assert forall|k: int| 0 <= k < orig.len() implies rebuilt@[k] == orig[k] by {
                            if k < i {
                                assert(orig.subrange(0, i as int)[k] == orig[k]);
                            } else if k > i {
                                assert(orig.skip(i + 1)[k - i - 1] == orig[k]);
                            }
                        }
                        assert(original.entries() =~= orig);
                    }
                    return Err(original);
                },
            }
        }
        let r = (Record { fields: sel }, Record { fields: rem });
        proof {
            assert(r.0.entries() =~= selected_entries(orig, tgt));
            assert(r.1.entries() =~= remainder_entries(orig, tgt));
            assert forall|a: int, b: int| 0 <= a < b < orig.len() implies #[trigger] r.0.entries()[a].name@ != #[trigger] r.0.entries()[b].name@ by {
                assert(orig[a].name@ != orig[b].name@);
            }
            assert forall|a: int, b: int| 0 <= a < b < orig.len() implies #[trigger] r.1.entries()[a].name@ != #[trigger] r.1.entries()[b].name@ by {
                assert(orig[a].name@ != orig[b].name@);
            }
        }
        Ok(r)
    }

    /// Reshape the whole record to the target shape, keeping no remainder.
    /// Always succeeds: every field's target state must be reachable by a
    /// total projection.
    pub fn project(self, target: &Vec<Presence>) -> (r: Record<T>)
        requires
            self.wf(),
            all_project(self.entries(), target@),
        ensures
            r.entries() == selected_entries(self.entries(), target@),
            r.wf(),
    {
        let (selected, _) = self.extract(target);
        selected
    }

    /// Fallible reshape: like `project`, but a field may also be promoted
    /// from `Optional` to `Present`.  Returns nothing — not even the original
    /// — as soon as any such field's option turns out empty.
    pub fn try_project(self, target: &Vec<Presence>) -> (r: Option<Record<T>>)
        requires
            self.wf(),
            all_try_project(self.entries(), target@),
        ensures
            r is Some <==> !some_extract_failure(self.entries(), target@),
            r matches Some(p) ==> p.entries() == selected_entries(self.entries(), target@)
                && p.wf(),
    {
        match self.try_extract(target) {
            Ok((selected, _)) => Some(selected),
            Err(_) => None,
        }
    }

    /// The record's shape, as a vector of presence states in schema order.
    pub fn shape_vec(&self) -> (r: Vec<Presence>)
        ensures
            r@ == self.shape(),
    {
        let mut r: Vec<Presence> = Vec::new();
        let mut i: usize = 0;
        while i < self.fields.len()
            invariant
                i <= self.entries().len(),
                r@.len() == i,
                forall|j: int| 0 <= j < i ==> r@[j] == (#[trigger] self.entries()[j].field).state(),
            decreases self.entries().len() - i,
        {
            r.push(self.fields[i].field.presence());
            i += 1;
        }
        proof {
            assert(r@ =~= self.shape());
        }
        r
    }

    /// Consume a record whose fields are all present, yielding the values in
    /// schema order.
    pub fn into_values(self) -> (r: Vec<T>)
        requires
            forall|i: int|
                0 <= i < self.entries().len() ==> (#[trigger] self.entries()[i].field).state()
                    == Presence::Present,
        ensures
            r@.len() == self.entries().len(),
            forall|i: int|
                0 <= i < self.entries().len() ==> #[trigger] self.entries()[i].field
                    == Field::Present(r@[i]),
    {
        let ghost orig = self.entries();
        let mut rest = self.fields;
        let mut r: Vec<T> = Vec::new();
        while rest.len() > 0
            invariant
                forall|i: int|
                    0 <= i < orig.len() ==> (#[trigger] orig[i].field).state()
                        == Presence::Present,
                r@.len() + rest@.len() == orig.len(),
                rest@ =~= orig.skip(r@.len() as int),
                forall|i: int|
                    0 <= i < r@.len() ==> #[trigger] orig[i].field == Field::Present(r@[i]),
            decreases rest@.len(),
        {
            let e = rest.remove(0);
            match e.field {
                Field::Present(v) => r.push(v),
                _ => unreached(),  // every field is required to be present
            }
        }
        r
    }
}

} // verus!
