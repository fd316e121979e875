//! The serialization boundary: render a record as a JSON object and build a
//! record back from a staging record of parsed fields.
//!
//! The boundary rule is the presence states' visible face: a present field
//! is emitted with its value, an optional field with its value or an
//! explicit `null`, and an absent field is omitted entirely.

use vstd::prelude::*;
use vstd::string::{StrSliceExecFns, StringExecFns};

use crate::field::Field;
use crate::presence::Presence;
use crate::record::{FieldEntry, Record, all_try_project, selected_entries, some_extract_failure};

verus! {

/// A JSON-serializable field value: a string, an unsigned integer or a
/// boolean.
#[derive(Debug, Clone, PartialEq, Eq)]
pub enum Value {
    Str(String),
    Int(u64),
    Bool(bool),
}

/// A JSON string escape: quote and backslash get a backslash, every other
/// character stands for itself.
pub open spec fn escape_char(c: char) -> Seq<char> {
    if c == '"' {
        seq!['\\', '"']
    } else if c == '\\' {
        seq!['\\', '\\']
    } else {
        seq![c]
    }
}

/// A whole string escaped, character by character.
pub open spec fn escape_seq(s: Seq<char>) -> Seq<char>
    decreases s.len(),
{
    if s.len() == 0 {
        Seq::empty()
    } else {
        escape_seq(s.drop_last()) + escape_char(s.last())
    }
}

/// The decimal digit character for `d`.
pub open spec fn digit_char(d: nat) -> char {
    if d == 0 {
        '0'
    } else if d == 1 {
        '1'
    } else if d == 2 {
        '2'
    } else if d == 3 {
        '3'
    } else if d == 4 {
        '4'
    } else if d == 5 {
        '5'
    } else if d == 6 {
        '6'
    } else if d == 7 {
        '7'
    } else if d == 8 {
        '8'
    } else {
        '9'
    }
}

/// The decimal digits of `n`, most significant first.
pub open spec fn dec_digits(n: nat) -> Seq<char>
    decreases n,
{
    if n < 10 {
        seq![digit_char(n)]
    } else {
        dec_digits(n / 10).push(digit_char(n % 10))
    }
}

/// The JSON text of one value.
pub open spec fn render_value(v: Value) -> Seq<char> {
    match v {
        Value::Str(s) => seq!['"'] + escape_seq(s@) + seq!['"'],
        Value::Int(n) => dec_digits(n as nat),
        Value::Bool(b) => if b {
            seq!['t', 'r', 'u', 'e']
        } else {
            seq!['f', 'a', 'l', 's', 'e']
        },
    }
}

/// The JSON text of one field's contents, or nothing for an absent field:
/// a present field is emitted with its value, an optional field with its
/// value or `null`, and an absent field is omitted.
pub open spec fn render_field(f: Field<Value>) -> Option<Seq<char>> {
    match f {
        Field::Present(v) => Some(render_value(v)),
        Field::Optional(Some(v)) => Some(render_value(v)),
        Field::Optional(None) => Some(seq!['n', 'u', 'l', 'l']),
        Field::Absent => None,
    }
}

/// The JSON text of the entries from `s` onward, given whether an emitted
/// member would be the first of the object: every later member is preceded
/// by a comma.
pub open spec fn render_members(s: Seq<FieldEntry<Value>>, first: bool) -> Seq<char>
    decreases s.len(),
{
    if s.len() == 0 {
        Seq::empty()
    } else {
        match render_field(s[0].field) {
            None => render_members(s.skip(1), first),
            Some(contents) => {
                let member = seq!['"'] + escape_seq(s[0].name@) + seq!['"', ':'] + contents;
                (if first {
                    member
                } else {
                    seq![','] + member
                }) + render_members(s.skip(1), false)
            },
        }
    }
}

/// The JSON object text of a whole record.
pub open spec fn render_record(s: Seq<FieldEntry<Value>>) -> Seq<char> {
    seq!['{'] + render_members(s, true) + seq!['}']
}

/// The one-character string for the decimal digit `d`.
fn digit_str(d: u64) -> (r: &'static str)
    requires
        d < 10,
    ensures
        r@ == seq![digit_char(d as nat)],
{
    proof {
        reveal_strlit("0");
        reveal_strlit("1");
        reveal_strlit("2");
        reveal_strlit("3");
        reveal_strlit("4");
        reveal_strlit("5");
        reveal_strlit("6");
        reveal_strlit("7");
        reveal_strlit("8");
        reveal_strlit("9");
    }
    let r = match d {
        0 => "0",
        1 => "1",
        2 => "2",
        3 => "3",
        4 => "4",
        5 => "5",
        6 => "6",
        7 => "7",
        8 => "8",
        _ => "9",
    };
    proof {
        assert(r@ =~= seq![digit_char(d as nat)]);
    }
    r
}

/// Append the decimal digits of `n` to `acc`.
fn push_u64(acc: &mut String, n: u64)
    ensures
        final(acc)@ == old(acc)@ + dec_digits(n as nat),
    decreases n,
{
    if n >= 10 {
        push_u64(acc, n / 10);
    }
    let d = n % 10;
    acc.append(digit_str(d));
    proof {
        assert(final(acc)@ =~= old(acc)@ + dec_digits(n as nat));
    }
}

/// Append the escaped characters of `s` to `acc`.
fn push_escaped(acc: &mut String, s: &str)
    ensures
        final(acc)@ == old(acc)@ + escape_seq(s@),
{
    proof {
        reveal_strlit("\\\"");
        reveal_strlit("\\\\");
    }
    let n = s.unicode_len();
    let mut i: usize = 0;
    proof {
        assert(s@.take(0) =~= Seq::<char>::empty());
        assert(acc@ =~= old(acc)@ + escape_seq(s@.take(0)));
    }
    while i < n
        invariant
            n == s@.len(),
            i <= n,
            acc@ == old(acc)@ + escape_seq(s@.take(i as int)),
        decreases n - i,
    {
        proof {
            reveal_strlit("\\\"");
            reveal_strlit("\\\\");
        }
        let c = s.get_char(i);
        if c == '"' {
            acc.append("\\\"");
        } else if c == '\\' {
            acc.append("\\\\");
        } else {
            let piece = s.substring_char(i, i + 1);
            acc.append(piece);
            proof {
                assert(piece@ =~= seq![s@[i as int]]);
            }
        }
        i += 1;
        proof {
            assert(s@.take(i as int).drop_last() =~= s@.take(i - 1));
            assert(s@.take(i as int).last() == s@[i - 1]);
            assert(acc@ =~= old(acc)@ + escape_seq(s@.take(i as int)));
        }
    }
    proof {
        assert(s@.take(n as int) =~= s@);
    }
}

/// Append the JSON text of one value to `acc`.
fn push_value(acc: &mut String, v: &Value)
    ensures
        final(acc)@ == old(acc)@ + render_value(*v),
    {
    proof {
        reveal_strlit("\"");
        reveal_strlit("true");
        reveal_strlit("false");
    }
    match v {
        Value::Str(s) => {
            acc.append("\"");
            push_escaped(acc, s.as_str());
            acc.append("\"");
            proof {
                assert(acc@ =~= old(acc)@ + render_value(*v));
            }
        },
        Value::Int(n) => {
            push_u64(acc, *n);
        },
        Value::Bool(b) => {
            if *b {
                acc.append("true");
                proof {
                    assert(acc@ =~= old(acc)@ + render_value(*v));
                }
            } else {
                acc.append("false");
                proof {
                    assert(acc@ =~= old(acc)@ + render_value(*v));
                }
            }
        },
    }
}

/// Render a record as a JSON object, by the boundary rule: a present field
/// is emitted with its value, an optional field with its value or an
/// explicit `null`, and an absent field is omitted from the output.
pub fn to_json(record: &Record<Value>) -> (s: String)
    ensures
        s@ == render_record(record.entries()),
{
    proof {
        reveal_strlit("{");
        reveal_strlit("}");
        reveal_strlit("\"");
        reveal_strlit("\":");
        reveal_strlit(",\"");
        reveal_strlit("null");
    }
    let ghost entries = record.entries();
    let mut acc = String::new();
    acc.append("{");
    let mut first = true;
    let mut i: usize = 0;
    let n = record.len();
    proof {
        assert(entries.skip(0) =~= entries);
        assert(acc@ =~= seq!['{']);
    }
    while i < n
        invariant
            n == entries.len(),
            entries == record.entries(),
            i <= n,
            seq!['{'] + render_members(entries, true) =~= acc@ + render_members(
                entries.skip(i as int),
                first,
            ),
        decreases n - i,
    {
        proof {
            reveal_strlit("\"");
            reveal_strlit("\":");
            reveal_strlit(",\"");
            reveal_strlit("null");
        }
        let ghost before = acc@;
        let ghost rest = entries.skip(i as int);
        let field = record.field_at(i);
        let emitted: bool;
        match field.get() {
            Some(v) => {
                if first {
                    acc.append("\"");
                } else {
                    acc.append(",\"");
                }
                push_escaped(&mut acc, record.name_at(i).as_str());
                acc.append("\":");
                let value = v.clone_value();
                push_value(&mut acc, &value);
                emitted = true;
            },
            None => {
                match field {
                    Field::Optional(None) => {
                        if first {
                            acc.append("\"");
                        } else {
                            acc.append(",\"");
                        }
                        push_escaped(&mut acc, record.name_at(i).as_str());
                        acc.append("\":");
                        acc.append("null");
                        emitted = true;
                    },
                    _ => {
                        emitted = false;
                    },
                }
            },
        }
        proof {
            assert(rest.skip(1) =~= entries.skip(i + 1));
            if emitted {
                assert(render_field(entries[i as int].field) is Some);
                let contents = render_field(entries[i as int].field)->Some_0;
                let member = seq!['"'] + escape_seq(entries[i as int].name@) + seq!['"', ':']
                    + contents;
                if first {
                    assert(acc@ =~= before + member);
                } else {
                    assert(acc@ =~= before + seq![','] + member);
                    assert(acc@ =~= before + (seq![','] + member));
                }
            }
        }
        if emitted {
            first = false;
        }
        i += 1;
    }
    acc.append("}");
    proof {
        assert(entries.skip(n as int) =~= Seq::<FieldEntry<Value>>::empty());
        assert(acc@ =~= render_record(entries));
    }
    acc
}

impl Value {
    /// An owned copy of this value.
    pub fn clone_value(&self) -> (r: Value)
        ensures
            r == *self,
    {
        match self {
            Value::Str(s) => Value::Str(s.clone()),
            Value::Int(n) => Value::Int(*n),
            Value::Bool(b) => Value::Bool(*b),
        }
    }
}

/// The error of a failed deserialization: a field the target shape requires
/// as present was missing (or null) in the input.
#[derive(Debug, Clone, PartialEq, Eq)]
pub struct MissingFieldError {
    field: String,
}

impl MissingFieldError {
    /// The name of the missing field.
    pub closed spec fn field_name(self) -> Seq<char> {
        self.field@
    }

    /// An error naming the missing field.
    pub fn new(field: String) -> (r: MissingFieldError)
        ensures
            r.field_name() == field@,
    {
        MissingFieldError { field }
    }

    /// The name of the missing field.
    pub fn field(&self) -> (r: &String)
        ensures
            r@ == self.field_name(),
    {
        &self.field
    }

    /// The error, spelled out.
    pub fn message(&self) -> (r: String)
        ensures
            r@ == "missing field `"@ + self.field_name() + "`"@,
    {
        let mut m = String::new();
        m.append("missing field `");
        m.append(self.field.as_str());
        m.append("`");
        proof {
            assert(m@ =~= "missing field `"@ + self.field_name() + "`"@);
        }
        m
    }
}

/// Whether a record is a staging record: every field optional, as a
/// deserializer leaves them after reading the input.
pub open spec fn is_staging<T>(s: Seq<FieldEntry<T>>) -> bool {
    forall|i: int|
        0 <= i < s.len() ==> (#[trigger] s[i].field).state() == Presence::Optional
}

/// Finish a deserialization: apply a fallible extraction of the staging
/// record — every field of which is optional — against the requested target
/// shape.  Succeeds with the reshaped record exactly when every field the
/// target requires as present holds a value; otherwise nothing of the
/// staging record survives and the error names the first missing field.
/// Failure is atomic: no partially populated record is ever returned.
pub fn from_staging<T>(staging: Record<T>, target: &Vec<Presence>) -> (r: Result<
    Record<T>,
    MissingFieldError,
>)
    requires
        staging.wf(),
        is_staging(staging.entries()),
        target@.len() == staging.entries().len(),
    ensures
        r is Ok <==> !some_extract_failure(staging.entries(), target@),
        r matches Ok(rec) ==> rec.entries() == selected_entries(staging.entries(), target@)
            && rec.wf(),
        r matches Err(e) ==> exists|i: int|
            {
                &&& 0 <= i < staging.entries().len()
                &&& (#[trigger] staging.entries()[i].field).try_extract_fails(target@[i])
                &&& forall|j: int|
                    0 <= j < i ==> !(#[trigger] staging.entries()[j].field).try_extract_fails(
                        target@[j],
                    )
                &&& e.field_name() == staging.entries()[i].name@
            },
{
    let n = staging.len();
    let mut i: usize = 0;
    while i < n
        invariant
            n == staging.entries().len(),
            target@.len() == n,
            staging.wf(),
            is_staging(staging.entries()),
            i <= n,
            forall|j: int|
                0 <= j < i ==> !(#[trigger] staging.entries()[j].field).try_extract_fails(
                    target@[j],
                ),
        decreases n - i,
    {
        let required = match target[i] {
            Presence::Present => true,
            _ => false,
        };
        if required {
            let empty = match staging.field_at(i).get() {
                Some(_) => false,
                None => true,
            };
            if empty {
                let name = staging.name_at(i).clone();
                return Err(MissingFieldError::new(name));
            }
        }
        i += 1;
    }
    proof {
        assert(all_try_project(staging.entries(), target@));
    }
    match staging.try_extract(target) {
        Ok((selected, _)) => Ok(selected),
        Err(_) => unreached(),  // no field can fail: the scan above found none empty
    }
}

} // verus!
