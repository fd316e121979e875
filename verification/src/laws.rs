//! The laws the record operations obey, stated over the same spec functions
//! the operations' contracts use and proved once and for all.

use vstd::prelude::*;

use crate::field::Field;
use crate::presence::Presence;
use crate::record::{
    FieldEntry, all_project, merge_entries, names_aligned, remainder_entries, selected_entries,
};

verus! {

/// Merging with an all-absent record on the right is the identity: for every
/// shape, `merge(v, empty) == v` when `empty` names the same fields as `v`
/// and every one of its fields is absent.
pub proof fn lemma_merge_all_absent_is_identity<T>(a: Seq<FieldEntry<T>>, b: Seq<FieldEntry<T>>)
    requires
        names_aligned(a, b),
        forall|i: int| 0 <= i < b.len() ==> (#[trigger] b[i].field) is Absent,
    ensures
        merge_entries(a, b) == a,
{
    assert forall|i: int| 0 <= i < a.len() implies #[trigger] merge_entries(a, b)[i] == a[i] by {
        assert(b[i].field is Absent);
    }
    assert(merge_entries(a, b) =~= a);
}

/// The precedence law of merge: for every field, the merged record carries
/// the second operand's value whenever the second operand carries one, and
/// the first operand's value otherwise; the merged state is the presence
/// combination of the two states.
pub proof fn lemma_merge_second_wins<T>(a: Seq<FieldEntry<T>>, b: Seq<FieldEntry<T>>)
    requires
        names_aligned(a, b),
    ensures
        forall|i: int|
            0 <= i < a.len() ==> (#[trigger] merge_entries(a, b)[i]).field.value() == if b[i].field.carries() {
                b[i].field.value()
            } else {
                a[i].field.value()
            },
        forall|i: int|
            0 <= i < a.len() ==> (#[trigger] merge_entries(a, b)[i]).field.state() == a[i].field.state().or_spec(
                b[i].field.state(),
            ),
{
}

/// The round-trip law of extraction: partitioning a record and merging the
/// two parts back restores the original, provided no field's extraction
/// narrowed its state away — every field's target is either absent (the
/// remainder keeps the whole container) or the field's own state (the
/// selected part keeps it and the remainder is absent).
pub proof fn lemma_extract_merge_round_trip<T>(s: Seq<FieldEntry<T>>, t: Seq<Presence>)
    requires
        all_project(s, t),
        forall|i: int|
            0 <= i < s.len() ==> t[i] == Presence::Absent || t[i] == (#[trigger] s[i].field).state(),
    ensures
        names_aligned(selected_entries(s, t), remainder_entries(s, t)),
        merge_entries(selected_entries(s, t), remainder_entries(s, t)) == s,
{
    let sel = selected_entries(s, t);
    let rem = remainder_entries(s, t);
    assert forall|i: int| 0 <= i < s.len() implies #[trigger] merge_entries(sel, rem)[i]
        == s[i] by {
        assert(t[i] == Presence::Absent || t[i] == s[i].field.state());
        assert(sel[i].field == s[i].field.convert_spec(t[i]));
    }
    assert(merge_entries(sel, rem) =~= s);
}

} // verus!
