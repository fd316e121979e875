//! Field selection: compile a record shape from per-field qualifiers, and
//! modify an existing shape with per-field deltas.
//!
//! A qualifier names one schema field and the presence state it should get.
//! A selection starts from an all-absent shape, a modification from an
//! existing one; in both, unlisted fields keep the default and the first
//! qualifier wins when a field is listed twice.

use vstd::prelude::*;
use vstd::string::StrSliceExecFns;

use crate::presence::Presence;

verus! {

/// The reading of one selection qualifier: the bare field name selects it
/// present, a trailing `?` optional, a trailing `-` absent; a qualifier
/// that is only a marker names no field and is meaningless.
pub open spec fn qualifier_of(s: Seq<char>) -> Option<(Seq<char>, Presence)> {
    if s.len() == 0 {
        None
    } else if s.last() == '?' {
        if s.len() == 1 {
            None
        } else {
            Some((s.drop_last(), Presence::Optional))
        }
    } else if s.last() == '-' {
        if s.len() == 1 {
            None
        } else {
            Some((s.drop_last(), Presence::Absent))
        }
    } else {
        Some((s, Presence::Present))
    }
}

/// Parse one selection qualifier: `field` is present, `field?` optional,
/// `field-` absent.  Fails exactly on an empty qualifier or a bare marker.
pub fn parse_qualifier(s: &str) -> (r: Option<(String, Presence)>)
    ensures
        match r {
            Some(q) => qualifier_of(s@) == Some((q.0@, q.1)),
            None => qualifier_of(s@) is None,
        },
{
    let n = s.unicode_len();
    if n == 0 {
        return None;
    }
    let last = s.get_char(n - 1);
    if last == '?' || last == '-' {
        if n == 1 {
            return None;
        }
        let name = s.substring_char(0, n - 1).to_owned();
        let state = if last == '?' {
            Presence::Optional
        } else {
            Presence::Absent
        };
        proof {
            assert(name@ =~= s@.drop_last());
        }
        Some((name, state))
    } else {
        Some((s.to_owned(), Presence::Present))
    }
}

/// The reading of one modification delta: a leading `+` makes the field
/// present, `-` absent, `?` optional; a delta without a marker or without a
/// name is meaningless.
pub open spec fn delta_of(s: Seq<char>) -> Option<(Seq<char>, Presence)> {
    if s.len() < 2 {
        None
    } else if s[0] == '+' {
        Some((s.skip(1), Presence::Present))
    } else if s[0] == '-' {
        Some((s.skip(1), Presence::Absent))
    } else if s[0] == '?' {
        Some((s.skip(1), Presence::Optional))
    } else {
        None
    }
}

/// Parse one modification delta: `+field` makes the field present,
/// `-field` absent, `?field` optional.  Fails exactly when the marker or
/// the name is missing.
pub fn parse_delta(s: &str) -> (r: Option<(String, Presence)>)
    ensures
        match r {
            Some(q) => delta_of(s@) == Some((q.0@, q.1)),
            None => delta_of(s@) is None,
        },
{
    let n = s.unicode_len();
    if n < 2 {
        return None;
    }
    let first = s.get_char(0);
    let state = if first == '+' {
        Presence::Present
    } else if first == '-' {
        Presence::Absent
    } else if first == '?' {
        Presence::Optional
    } else {
        return None;
    };
    let name = s.substring_char(1, n).to_owned();
    Some((name, state))
}

/// The state the first qualifier for `name` assigns, or `default` if no
/// qualifier names it.
pub open spec fn first_qualifier(
    quals: Seq<(String, Presence)>,
    name: Seq<char>,
    default: Presence,
) -> Presence
    decreases quals.len(),
{
    if quals.len() == 0 {
        default
    } else if quals[0].0@ == name {
        quals[0].1
    } else {
        first_qualifier(quals.skip(1), name, default)
    }
}

/// Whether every qualifier names a schema field.
pub open spec fn all_qualifiers_known(schema: Seq<String>, quals: Seq<(String, Presence)>) -> bool {
    forall|i: int|
        0 <= i < quals.len() ==> exists|j: int|
            0 <= j < schema.len() && #[trigger] schema[j]@ == (#[trigger] quals[i]).0@
}

/// The state the qualifiers assign to `name` over the default `default`:
/// the first qualifier naming it wins.
pub fn first_match(quals: &Vec<(String, Presence)>, name: &String, default: Presence) -> (r:
    Presence)
    ensures
        r == first_qualifier(quals@, name@, default),
{
    let mut k: usize = 0;
    proof {
        assert(quals@.skip(0) =~= quals@);
    }
    while k < quals.len()
        invariant
            k <= quals@.len(),
            first_qualifier(quals@, name@, default) == first_qualifier(
                quals@.skip(k as int),
                name@,
                default,
            ),
        decreases quals@.len() - k,
    {
        if quals[k].0.eq(name) {
            return quals[k].1;
        }
        k += 1;
        proof {
            assert(quals@.skip(k - 1).skip(1) =~= quals@.skip(k as int));
        }
    }
    default
}

/// Apply qualifiers as deltas over an existing shape: every listed field
/// gets the state of its first qualifier, every unlisted field keeps its
/// state from `base`.  Fails with the offending name exactly when some
/// qualifier names no schema field.
pub fn modify_shape(
    schema: &Vec<String>,
    base: &Vec<Presence>,
    quals: &Vec<(String, Presence)>,
) -> (r: Result<Vec<Presence>, String>)
    requires
        base@.len() == schema@.len(),
    ensures
        r is Ok <==> all_qualifiers_known(schema@, quals@),
        r matches Ok(shape) ==> shape@.len() == schema@.len() && (forall|i: int|
            0 <= i < schema@.len() ==> shape@[i] == first_qualifier(
                quals@,
                (#[trigger] schema@[i])@,
                base@[i],
            )),
        r matches Err(unknown) ==> exists|i: int|
            0 <= i < quals@.len() && (#[trigger] quals@[i]).0@ == unknown@ && (forall|j: int|
                0 <= j < schema@.len() ==> #[trigger] schema@[j]@ != unknown@),
    {
    let mut k: usize = 0;
    while k < quals.len()
        invariant
            k <= quals@.len(),
            forall|i: int|
                0 <= i < k ==> exists|j: int|
                    0 <= j < schema@.len() && #[trigger] schema@[j]@ == (#[trigger] quals@[i]).0@,
        decreases quals@.len() - k,
    {
        let mut j: usize = 0;
        let mut found = false;
        while j < schema.len()
            invariant
                j <= schema@.len(),
                k < quals@.len(),
                found ==> exists|m: int|
                    0 <= m < schema@.len() && #[trigger] schema@[m]@ == quals@[k as int].0@,
                !found ==> forall|m: int|
                    0 <= m < j ==> #[trigger] schema@[m]@ != quals@[k as int].0@,
            decreases schema@.len() - j,
        {
            if schema[j].eq(&quals[k].0) {
                found = true;
            }
            j += 1;
        }
        if !found {
            return Err(quals[k].0.clone());
        }
        k += 1;
    }
    let mut shape: Vec<Presence> = Vec::new();
    let mut i: usize = 0;
    while i < schema.len()
        invariant
            i <= schema@.len(),
            base@.len() == schema@.len(),
            shape@.len() == i,
            forall|m: int|
                0 <= m < i ==> shape@[m] == first_qualifier(
                    quals@,
                    (#[trigger] schema@[m])@,
                    base@[m],
                ),
        decreases schema@.len() - i,
    {
        let state = first_match(quals, &schema[i], base[i]);
        shape.push(state);
        i += 1;
    }
    Ok(shape)
}

/// A shape assigning one state uniformly to every schema field.
pub fn uniform_shape(len: usize, state: Presence) -> (r: Vec<Presence>)
    ensures
        r@.len() == len,
        forall|i: int| 0 <= i < len ==> r@[i] == state,
{
    let mut r: Vec<Presence> = Vec::new();
    let mut i: usize = 0;
    while i < len
        invariant
            i <= len,
            r@.len() == i,
            forall|j: int| 0 <= j < i ==> r@[j] == state,
        decreases len - i,
    {
        r.push(state);
        i += 1;
    }
    r
}

/// Compile a selection into a shape: every listed field gets the state of
/// its first qualifier, every unlisted field is absent.  Fails with the
/// offending name exactly when some qualifier names no schema field.
pub fn select_shape(schema: &Vec<String>, quals: &Vec<(String, Presence)>) -> (r: Result<
    Vec<Presence>,
    String,
>)
    ensures
        r is Ok <==> all_qualifiers_known(schema@, quals@),
        r matches Ok(shape) ==> shape@.len() == schema@.len() && (forall|i: int|
            0 <= i < schema@.len() ==> shape@[i] == first_qualifier(
                quals@,
                (#[trigger] schema@[i])@,
                Presence::Absent,
            )),
        r matches Err(unknown) ==> exists|i: int|
            0 <= i < quals@.len() && (#[trigger] quals@[i]).0@ == unknown@ && (forall|j: int|
                0 <= j < schema@.len() ==> #[trigger] schema@[j]@ != unknown@),
{
    let base = uniform_shape(schema.len(), Presence::Absent);
    modify_shape(schema, &base, quals)
}

} // verus!
