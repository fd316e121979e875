//! Extraction: partition a record value into the fields a target shape
//! selects and the remainder.

use vstd::prelude::*;

use crate::presence::Presence;
use crate::record::{
    Record, all_project, all_try_project, remainder_entries, selected_entries,
    some_extract_failure,
};

verus! {

/// Partition of a value into a selected part and a remainder, by a target
/// shape every field of which is reachable by a total projection.
pub trait Extract: Sized {
    /// Whether the target shape is reachable from this value by total
    /// projections alone.
    spec fn extract_ok(&self, target: Seq<Presence>) -> bool;

    /// Whether `(selected, remainder)` is the partition of `source` by
    /// `target`.
    spec fn is_extraction_of(
        selected: &Self,
        remainder: &Self,
        source: &Self,
        target: Seq<Presence>,
    ) -> bool;

    /// Partition the value into the fields the target shape selects and the
    /// remainder.  Always succeeds.
    fn extract(self, target: &Vec<Presence>) -> (r: (Self, Self))
        requires
            self.extract_ok(target@),
        ensures
            Self::is_extraction_of(&r.0, &r.1, &self, target@),
    ;
}

impl<T> Extract for Record<T> {
    open spec fn extract_ok(&self, target: Seq<Presence>) -> bool {
        self.wf() && all_project(self.entries(), target)
    }

    open spec fn is_extraction_of(
        selected: &Self,
        remainder: &Self,
        source: &Self,
        target: Seq<Presence>,
    ) -> bool {
        &&& selected.entries() == selected_entries(source.entries(), target)
        &&& remainder.entries() == remainder_entries(source.entries(), target)
        &&& selected.wf()
        &&& remainder.wf()
    }

    fn extract(self, target: &Vec<Presence>) -> (r: (Self, Self)) {
        Record::extract(self, target)
    }
}

/// The fallible counterpart of `Extract`: a field may also be selected from
/// `Optional` into `Present`, and the whole operation fails — returning the
/// exact original — as soon as such a field's option turns out empty.
pub trait TryExtract: Sized {
    /// Whether the target shape is reachable from this value by fallible
    /// projections.
    spec fn try_extract_ok(&self, target: Seq<Presence>) -> bool;

    /// Whether extracting `source` by `target` fails.
    spec fn try_extract_fails(&self, target: Seq<Presence>) -> bool;

    /// Whether `(selected, remainder)` is the partition of `source` by
    /// `target`.
    spec fn is_try_extraction_of(
        selected: &Self,
        remainder: &Self,
        source: &Self,
        target: Seq<Presence>,
    ) -> bool;

    /// Whether `restored` is, field for field and value for value, the
    /// value `source` held before the operation.
    spec fn is_same_value(restored: &Self, source: &Self) -> bool;

    /// Partition the value like `Extract::extract`, or hand the exact
    /// original back if some field required as present carries nothing.
    fn try_extract(self, target: &Vec<Presence>) -> (r: Result<(Self, Self), Self>)
        requires
            self.try_extract_ok(target@),
        ensures
            r is Ok <==> !self.try_extract_fails(target@),
            r matches Ok(p) ==> Self::is_try_extraction_of(&p.0, &p.1, &self, target@),
            r matches Err(original) ==> Self::is_same_value(&original, &self),
    ;
}

impl<T> TryExtract for Record<T> {
    open spec fn try_extract_ok(&self, target: Seq<Presence>) -> bool {
        self.wf() && all_try_project(self.entries(), target)
    }

    open spec fn try_extract_fails(&self, target: Seq<Presence>) -> bool {
        some_extract_failure(self.entries(), target)
    }

    open spec fn is_try_extraction_of(
        selected: &Self,
        remainder: &Self,
        source: &Self,
        target: Seq<Presence>,
    ) -> bool {
        &&& selected.entries() == selected_entries(source.entries(), target)
        &&& remainder.entries() == remainder_entries(source.entries(), target)
        &&& selected.wf()
        &&& remainder.wf()
    }

    open spec fn is_same_value(restored: &Self, source: &Self) -> bool {
        restored.entries() == source.entries()
    }

    fn try_extract(self, target: &Vec<Presence>) -> (r: Result<(Self, Self), Self>) {
        Record::try_extract(self, target)
    }
}

} // verus!
