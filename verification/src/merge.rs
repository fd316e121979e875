//! Merging: combine two record values over one schema, the second operand
//! winning wherever it carries a value.

use vstd::prelude::*;

use crate::record::{Record, merge_entries, names_aligned};

verus! {

/// Combination of two values of one schema into one.
pub trait Merge: Sized {
    /// Whether the two values may be merged.
    spec fn merge_compatible(&self, other: &Self) -> bool;

    /// Whether `merged` is the merge of `a` and `b`.
    spec fn is_merge_of(merged: &Self, a: &Self, b: &Self) -> bool;

    /// Combine two values, field by field: `other` wins whenever it carries
    /// a value and `self` is the fallback.  Always succeeds.
    fn merge(self, other: Self) -> (r: Self)
        requires
            self.merge_compatible(&other),
        ensures
            Self::is_merge_of(&r, &self, &other),
    ;
}

impl<T> Merge for Record<T> {
    open spec fn merge_compatible(&self, other: &Self) -> bool {
        self.wf() && names_aligned(self.entries(), other.entries())
    }

    open spec fn is_merge_of(merged: &Self, a: &Self, b: &Self) -> bool {
        merged.entries() == merge_entries(a.entries(), b.entries()) && merged.wf()
    }

    fn merge(self, other: Self) -> (r: Self) {
        Record::merge(self, other)
    }
}

} // verus!
