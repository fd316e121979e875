//! Structural typing for records: one schema, many shapes.
//!
//! A record schema (say "user: name, email, id") is used in many contexts
//! that require, allow or exclude different subsets of its fields.  Instead
//! of declaring one type per context, or wrapping every field in `Option`,
//! each field of a record independently carries one of three presence
//! states: `Present` (holds a value), `Optional` (may hold a value) or
//! `Absent` (holds nothing).  The library provides the presence algebra and
//! the record operations built on it — merge, extract, split, project and
//! their fallible variants — together with proofs of the laws they obey:
//! merging with an all-absent record is the identity, the second operand of
//! a merge wins whenever it carries a value, extraction followed by a merge
//! restores the original record, and a failed fallible extraction hands the
//! exact original back.
//!
//! The pieces, from the bottom up: [`presence`] is the algebra of the three
//! states; [`field`] the per-field container; [`record`] the schema-shaped
//! record value and its operations; [`selector`] compiles a record shape
//! from per-field qualifiers; [`json`] is the serialization boundary;
//! [`laws`] holds the proved laws.  The operation traits ([`access`],
//! [`merge`], [`extract`], [`split`], [`property`]) name the capabilities a
//! record-shaped value offers, and [`analysis`] serves code that generates
//! a per-schema facade over the generic record.

pub mod access;
pub mod analysis;
pub mod extract;
pub mod field;
pub mod json;
pub mod laws;
pub mod merge;
pub mod presence;
pub mod property;
pub mod record;
pub mod selector;
pub mod split;

pub use field::Field;
pub use presence::Presence;
pub use record::Record;
