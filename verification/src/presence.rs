//! The presence algebra: the three states a record field can be in, and the
//! total functions between them that the record operations are built on.

use vstd::prelude::*;

verus! {

/// The presence state of one record field.
///
/// `Present` marks a field that holds exactly one value, `Optional` a field
/// that holds an `Option` (possibly empty), and `Absent` a field that holds
/// nothing at all.  A record's shape (its field set) assigns one state to
/// every field of the schema.
#[derive(Clone, Copy, Debug, PartialEq, Eq, Structural)]
pub enum Presence {
    Present,
    Optional,
    Absent,
}

impl Presence {
    /// State of a field after combining two fields of the same schema entry,
    /// where `other` wins whenever it can carry a value.
    pub open spec fn or_spec(self, other: Presence) -> Presence {
        match other {
            Presence::Present => Presence::Present,
            Presence::Optional => self.option_or_self_spec(),
            Presence::Absent => self,
        }
    }

    /// State of a field that held `self` once an `Optional` operand has been
    /// folded into it: anything combined with an `Option` can still be empty,
    /// except a field that was already guaranteed present.
    pub open spec fn option_or_self_spec(self) -> Presence {
        match self {
            Presence::Present => Presence::Present,
            Presence::Optional => Presence::Optional,
            Presence::Absent => Presence::Optional,
        }
    }

    /// State a source field reverts to once a projection toward `self` has
    /// consumed its portion: a consuming target (`Present` or `Optional`)
    /// leaves nothing behind, while an `Absent` target leaves the source
    /// untouched.
    pub open spec fn remainder_from_spec(self, source: Presence) -> Presence {
        match self {
            Presence::Present => Presence::Absent,
            Presence::Optional => Presence::Absent,
            Presence::Absent => source,
        }
    }

    /// Whether a total projection from `self` to `to` exists: a present value
    /// can be kept, wrapped or dropped, an optional one kept or dropped, and
    /// an absent field can only stay absent.
    pub open spec fn projects_to(self, to: Presence) -> bool {
        match (self, to) {
            (Presence::Present, _) => true,
            (Presence::Optional, Presence::Optional) => true,
            (Presence::Optional, Presence::Absent) => true,
            (Presence::Absent, Presence::Absent) => true,
            _ => false,
        }
    }

    /// Whether a fallible projection from `self` to `to` exists: everything a
    /// total projection allows, plus `Optional` to `Present`, which succeeds
    /// exactly when the option holds a value.
    pub open spec fn try_projects_to(self, to: Presence) -> bool {
        self.projects_to(to) || (self == Presence::Optional && to == Presence::Present)
    }

    /// Whether a presence conversion from `self` to `to` exists.  This is the
    /// split table: every total projection, plus `Absent` to `Optional`,
    /// which yields an empty option.
    pub open spec fn converts_to(self, to: Presence) -> bool {
        self.projects_to(to) || (self == Presence::Absent && to == Presence::Optional)
    }

    /// Whether a fallible presence conversion from `self` to `to` exists:
    /// everything `converts_to` allows, plus `Optional` to `Present`.
    pub open spec fn try_converts_to(self, to: Presence) -> bool {
        self.converts_to(to) || (self == Presence::Optional && to == Presence::Present)
    }

    /// Combine two presence states; `other` wins whenever it can carry a value.
    pub fn or(self, other: Presence) -> (r: Presence)
        ensures
            r == self.or_spec(other),
    {
        match other {
            Presence::Present => Presence::Present,
            Presence::Optional => self.option_or_self(),
            Presence::Absent => self,
        }
    }

    /// The state of `self` once an `Optional` operand has been folded into it.
    pub fn option_or_self(self) -> (r: Presence)
        ensures
            r == self.option_or_self_spec(),
    {
        match self {
            Presence::Present => Presence::Present,
            _ => Presence::Optional,
        }
    }

    /// The state a `source` field reverts to once a projection toward `self`
    /// has consumed its portion.
    pub fn remainder_from(self, source: Presence) -> (r: Presence)
        ensures
            r == self.remainder_from_spec(source),
    {
        match self {
            Presence::Absent => source,
            _ => Presence::Absent,
        }
    }

    /// Whether a total projection from `self` to `to` exists.
    pub fn can_project_to(self, to: Presence) -> (r: bool)
        ensures
            r == self.projects_to(to),
    {
        match (self, to) {
            (Presence::Present, _) => true,
            (Presence::Optional, Presence::Optional) => true,
            (Presence::Optional, Presence::Absent) => true,
            (Presence::Absent, Presence::Absent) => true,
            _ => false,
        }
    }

    /// Whether a fallible projection from `self` to `to` exists.
    pub fn can_try_project_to(self, to: Presence) -> (r: bool)
        ensures
            r == self.try_projects_to(to),
    {
        self.can_project_to(to) || (self == Presence::Optional && to == Presence::Present)
    }

    /// Whether a presence conversion (the split table) from `self` to `to`
    /// exists.
    pub fn can_convert_to(self, to: Presence) -> (r: bool)
        ensures
            r == self.converts_to(to),
    {
        self.can_project_to(to) || (self == Presence::Absent && to == Presence::Optional)
    }
}

} // verus!
