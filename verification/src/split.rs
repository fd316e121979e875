//! Splitting and projecting: partition a record value under the split
//! table, or reshape it as a whole without keeping a remainder.

use vstd::prelude::*;

use crate::presence::Presence;
use crate::record::{
    Record, all_convert, all_project, all_try_convert, all_try_project, remainder_entries,
    selected_entries, some_extract_failure,
};

verus! {

/// Partition of a value into a selected part and a remainder under the
/// split table, which also lets an absent field be selected as an empty
/// optional.
pub trait Split: Sized {
    /// Whether the target shape is reachable from this value under the
    /// split table.
    spec fn split_ok(&self, target: Seq<Presence>) -> bool;

    /// Whether `(selected, remainder)` is the split of `source` by `target`.
    spec fn is_split_of(
        selected: &Self,
        remainder: &Self,
        source: &Self,
        target: Seq<Presence>,
    ) -> bool;

    /// Split the value into the fields the target shape selects and the
    /// remainder.  Always succeeds.
    fn split(self, target: &Vec<Presence>) -> (r: (Self, Self))
        requires
            self.split_ok(target@),
        ensures
            Self::is_split_of(&r.0, &r.1, &self, target@),
    ;
}

impl<T> Split for Record<T> {
    open spec fn split_ok(&self, target: Seq<Presence>) -> bool {
        self.wf() && all_convert(self.entries(), target)
    }

    open spec fn is_split_of(
        selected: &Self,
        remainder: &Self,
        source: &Self,
        target: Seq<Presence>,
    ) -> bool {
        &&& selected.entries() == selected_entries(source.entries(), target)
        &&& remainder.entries() == remainder_entries(source.entries(), target)
        &&& selected.wf()
        &&& remainder.wf()
    }

    fn split(self, target: &Vec<Presence>) -> (r: (Self, Self)) {
        Record::split(self, target)
    }
}

/// The fallible counterpart of `Split`: a field may also be selected from
/// `Optional` into `Present`, and the whole operation fails — returning the
/// exact original — as soon as such a field's option turns out empty.
pub trait TrySplit: Sized {
    /// Whether the target shape is reachable from this value under the
    /// fallible split table.
    spec fn try_split_ok(&self, target: Seq<Presence>) -> bool;

    /// Whether splitting `source` by `target` fails.
    spec fn try_split_fails(&self, target: Seq<Presence>) -> bool;

    /// Whether `(selected, remainder)` is the split of `source` by `target`.
    spec fn is_try_split_of(
        selected: &Self,
        remainder: &Self,
        source: &Self,
        target: Seq<Presence>,
    ) -> bool;

    /// Whether `restored` is, field for field and value for value, the
    /// value `source` held before the operation.
    spec fn is_same_split_source(restored: &Self, source: &Self) -> bool;

    /// Split the value like `Split::split`, or hand the exact original back
    /// if some field required as present carries nothing.
    fn try_split(self, target: &Vec<Presence>) -> (r: Result<(Self, Self), Self>)
        requires
            self.try_split_ok(target@),
        ensures
            r is Ok <==> !self.try_split_fails(target@),
            r matches Ok(p) ==> Self::is_try_split_of(&p.0, &p.1, &self, target@),
            r matches Err(original) ==> Self::is_same_split_source(&original, &self),
    ;
}

impl<T> TrySplit for Record<T> {
    open spec fn try_split_ok(&self, target: Seq<Presence>) -> bool {
        self.wf() && all_try_convert(self.entries(), target)
    }

    open spec fn try_split_fails(&self, target: Seq<Presence>) -> bool {
        some_extract_failure(self.entries(), target)
    }

    open spec fn is_try_split_of(
        selected: &Self,
        remainder: &Self,
        source: &Self,
        target: Seq<Presence>,
    ) -> bool {
        &&& selected.entries() == selected_entries(source.entries(), target)
        &&& remainder.entries() == remainder_entries(source.entries(), target)
        &&& selected.wf()
        &&& remainder.wf()
    }

    open spec fn is_same_split_source(restored: &Self, source: &Self) -> bool {
        restored.entries() == source.entries()
    }

    fn try_split(self, target: &Vec<Presence>) -> (r: Result<(Self, Self), Self>) {
        Record::try_split(self, target)
    }
}

/// Reshape of a whole value to a target shape, keeping no remainder.
pub trait Project: Sized {
    /// Whether the target shape is reachable from this value by total
    /// projections alone.
    spec fn project_ok(&self, target: Seq<Presence>) -> bool;

    /// Whether `projected` is `source` reshaped to `target`.
    spec fn is_projection_of(projected: &Self, source: &Self, target: Seq<Presence>) -> bool;

    /// Reshape the value to the target shape, discarding what the target
    /// does not keep.  Always succeeds.
    fn project(self, target: &Vec<Presence>) -> (r: Self)
        requires
            self.project_ok(target@),
        ensures
            Self::is_projection_of(&r, &self, target@),
    ;
}

impl<T> Project for Record<T> {
    open spec fn project_ok(&self, target: Seq<Presence>) -> bool {
        self.wf() && all_project(self.entries(), target)
    }

    open spec fn is_projection_of(projected: &Self, source: &Self, target: Seq<Presence>) -> bool {
        projected.entries() == selected_entries(source.entries(), target) && projected.wf()
    }

    fn project(self, target: &Vec<Presence>) -> (r: Self) {
        Record::project(self, target)
    }
}

/// The fallible counterpart of `Project`: a field may also be promoted from
/// `Optional` to `Present`, and the whole operation yields nothing — not
/// even the original — as soon as such a field's option turns out empty.
pub trait TryProject: Sized {
    /// Whether the target shape is reachable from this value by fallible
    /// projections.
    spec fn try_project_ok(&self, target: Seq<Presence>) -> bool;

    /// Whether projecting `source` to `target` fails.
    spec fn try_project_fails(&self, target: Seq<Presence>) -> bool;

    /// Whether `projected` is `source` reshaped to `target`.
    spec fn is_try_projection_of(projected: &Self, source: &Self, target: Seq<Presence>) -> bool;

    /// Reshape the value like `Project::project`, or yield nothing if some
    /// field required as present carries nothing.
    fn try_project(self, target: &Vec<Presence>) -> (r: Option<Self>)
        requires
            self.try_project_ok(target@),
        ensures
            r is Some <==> !self.try_project_fails(target@),
            r matches Some(p) ==> Self::is_try_projection_of(&p, &self, target@),
    ;
}

impl<T> TryProject for Record<T> {
    open spec fn try_project_ok(&self, target: Seq<Presence>) -> bool {
        self.wf() && all_try_project(self.entries(), target)
    }

    open spec fn try_project_fails(&self, target: Seq<Presence>) -> bool {
        some_extract_failure(self.entries(), target)
    }

    open spec fn is_try_projection_of(
        projected: &Self,
        source: &Self,
        target: Seq<Presence>,
    ) -> bool {
        projected.entries() == selected_entries(source.entries(), target) && projected.wf()
    }

    fn try_project(self, target: &Vec<Presence>) -> (r: Option<Self>) {
        Record::try_project(self, target)
    }
}

} // verus!
