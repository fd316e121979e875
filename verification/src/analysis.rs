//! Schema analysis for per-schema facades: which of a set of type
//! parameters each field's type mentions — a parameter mentioned by exactly
//! one field can be rebound when that field alone changes shape — and the
//! spelling conversion that turns a field name into a generated type name.

use vstd::prelude::*;
use vstd::string::{StrSliceExecFns, StringExecFns};

verus! {

/// The position of the first entry of `usage` keyed by `name`, if any.
pub open spec fn usage_index(usage: Seq<(String, Vec<String>)>, name: Seq<char>) -> Option<int>
    decreases usage.len(),
{
    if usage.len() == 0 {
        None
    } else if usage[0].0@ == name {
        Some(0)
    } else {
        match usage_index(usage.drop_first(), name) {
            Some(i) => Some(i + 1),
            None => None,
        }
    }
}

/// The first index whose entry is keyed by `name` is what `usage_index`
/// finds: if everything before `i` is keyed otherwise and `i` matches, the
/// answer is `i`; if nothing matches, there is no answer.
pub proof fn lemma_usage_index_first(usage: Seq<(String, Vec<String>)>, name: Seq<char>, i: int)
    requires
        0 <= i <= usage.len(),
        forall|j: int| 0 <= j < i ==> (#[trigger] usage[j]).0@ != name,
        i < usage.len() ==> usage[i].0@ == name,
    ensures
        i < usage.len() ==> usage_index(usage, name) == Some(i),
        i == usage.len() ==> usage_index(usage, name) is None,
    decreases i,
{
    if usage.len() == 0 {
    } else if i == 0 {
    } else {
        assert(usage[0].0@ != name);
        lemma_usage_index_first(usage.drop_first(), name, i - 1);
        assert forall|j: int| 0 <= j < i - 1 implies (#[trigger] usage.drop_first()[j]).0@
            != name by {
            assert(usage.drop_first()[j] == usage[j + 1]);
        }
        if i < usage.len() {
            assert(usage.drop_first()[i - 1].0@ == name);
        }
    }
}

/// Accumulates, mention by mention, which fields of a schema use which of
/// the user's type parameters.
pub struct GenericUsageAnalyzer {
    user_generics: Vec<String>,
    usage: Vec<(String, Vec<String>)>,
}

impl GenericUsageAnalyzer {
    /// The type parameters whose uses are tracked.
    pub closed spec fn generics(self) -> Seq<String> {
        self.user_generics@
    }

    /// The usage gathered so far: each tracked parameter that has been
    /// mentioned, with the fields that mentioned it, in first-mention order.
    pub closed spec fn usage_map(self) -> Seq<(String, Vec<String>)> {
        self.usage@
    }

    /// Whether `name` is one of the tracked type parameters.
    pub open spec fn tracks(self, name: Seq<char>) -> bool {
        exists|i: int| 0 <= i < self.generics().len() && (#[trigger] self.generics()[i])@ == name
    }

    /// An analyzer tracking the given type parameters, with nothing
    /// mentioned yet.
    pub fn new(user_generics: Vec<String>) -> (r: GenericUsageAnalyzer)
        ensures
            r.generics() == user_generics@,
            r.usage_map() == Seq::<(String, Vec<String>)>::empty(),
    {
        GenericUsageAnalyzer { user_generics, usage: Vec::new() }
    }

    /// Record that the type of `field_name` mentions `generic`.  A mention
    /// of an untracked name changes nothing; otherwise `field_name` is added
    /// to the mentioning fields of `generic`, which is keyed on first
    /// mention.
    pub fn record_mention(&mut self, generic: &String, field_name: &String)
        ensures
            final(self).generics() == old(self).generics(),
            !old(self).tracks(generic@) ==> final(self).usage_map() == old(self).usage_map(),
            old(self).tracks(generic@) ==> match usage_index(old(self).usage_map(), generic@) {
                Some(i) => {
                    &&& final(self).usage_map().len() == old(self).usage_map().len()
                    &&& forall|j: int|
                        0 <= j < old(self).usage_map().len() && j != i
                            ==> #[trigger] final(self).usage_map()[j] == old(self).usage_map()[j]
                    &&& final(self).usage_map()[i].0 == old(self).usage_map()[i].0
                    &&& final(self).usage_map()[i].1@ == old(self).usage_map()[i].1@.push(
                        *field_name,
                    )
                },
                None => {
                    &&& final(self).usage_map().len() == old(self).usage_map().len() + 1
                    &&& forall|j: int|
                        0 <= j < old(self).usage_map().len()
                            ==> #[trigger] final(self).usage_map()[j] == old(self).usage_map()[j]
                    &&& final(self).usage_map().last().0 == *generic
                    &&& final(self).usage_map().last().1@ == seq![*field_name]
                },
            },
    {
        let mut tracked_name = false;
        let mut g: usize = 0;
        while g < self.user_generics.len()
            invariant
                g <= self.generics().len(),
                tracked_name ==> self.tracks(generic@),
                !tracked_name ==> forall|i: int|
                    0 <= i < g ==> (#[trigger] self.generics()[i])@ != generic@,
            decreases self.generics().len() - g,
        {
            if self.user_generics[g].eq(generic) {
                tracked_name = true;
            }
            g += 1;
        }
        if !tracked_name {
            return ;
        }
        let ghost before = self.usage@;
        let mut i: usize = 0;
        while i < self.usage.len()
            invariant
                self.generics() == old(self).generics(),
                old(self).tracks(generic@),
                before == self.usage@,
                before == old(self).usage_map(),
                i <= before.len(),
                forall|j: int| 0 <= j < i ==> (#[trigger] before[j]).0@ != generic@,
            decreases before.len() - i,
        {
            if self.usage[i].0.eq(generic) {
                let (key, mut fields) = self.usage.remove(i);
                fields.push(field_name.clone());
                self.usage.insert(i, (key, fields));
                proof {
                    assert(before[i as int].0@ == generic@);
                    lemma_usage_index_first(before, generic@, i as int);
                    assert(self.usage@ =~= before.update(
                        i as int,
                        (before[i as int].0, self.usage@[i as int].1),
                    ));
                }
                return ;
            }
            i += 1;
        }
        let mut first_mention: Vec<String> = Vec::new();
        first_mention.push(field_name.clone());
        self.usage.push(((generic.clone()), first_mention));
        proof {
            lemma_usage_index_first(before, generic@, before.len() as int);
            assert(self.usage@.last().1@ =~= seq![*field_name]);
        }
    }

    /// Hand the gathered usage out.
    pub fn into_usage(self) -> (r: Vec<(String, Vec<String>)>)
        ensures
            r@ == self.usage_map(),
    {
        self.usage
    }
}

/// The tracked parameters that exactly one field mentions (and mentions
/// once), in order: those, and no others, can be rebound when that one
/// field alone changes shape.
pub open spec fn single_field_generics_of(usage: Seq<(String, Vec<String>)>) -> Seq<String>
    decreases usage.len(),
{
    if usage.len() == 0 {
        Seq::empty()
    } else {
        let rest = single_field_generics_of(usage.drop_last());
        if usage.last().1@.len() == 1 {
            rest.push(usage.last().0)
        } else {
            rest
        }
    }
}

/// The tracked parameters that exactly one field mentions.
pub fn identify_single_field_generics(usage: &Vec<(String, Vec<String>)>) -> (r: Vec<String>)
    ensures
        r@ == single_field_generics_of(usage@),
{
    let mut r: Vec<String> = Vec::new();
    let mut j: usize = 0;
    proof {
        assert(usage@.take(0) =~= Seq::<(String, Vec<String>)>::empty());
    }
    while j < usage.len()
        invariant
            j <= usage@.len(),
            r@ == single_field_generics_of(usage@.take(j as int)),
        decreases usage@.len() - j,
    {
        if usage[j].1.len() == 1 {
            r.push(usage[j].0.clone());
        }
        j += 1;
        proof {
            assert(usage@.take(j as int).drop_last() =~= usage@.take(j - 1));
            assert(usage@.take(j as int).last() == usage@[j - 1]);
        }
    }
    proof {
        assert(usage@.take(usage@.len() as int) =~= usage@);
    }
    r
}

/// The upper-case form of an ASCII lower-case letter; any other character
/// stands for itself.
pub open spec fn upper_char(c: char) -> char {
    if c == 'a' { 'A' } else if c == 'b' { 'B' } else if c == 'c' { 'C' }
    else if c == 'd' { 'D' } else if c == 'e' { 'E' } else if c == 'f' { 'F' }
    else if c == 'g' { 'G' } else if c == 'h' { 'H' } else if c == 'i' { 'I' }
    else if c == 'j' { 'J' } else if c == 'k' { 'K' } else if c == 'l' { 'L' }
    else if c == 'm' { 'M' } else if c == 'n' { 'N' } else if c == 'o' { 'O' }
    else if c == 'p' { 'P' } else if c == 'q' { 'Q' } else if c == 'r' { 'R' }
    else if c == 's' { 'S' } else if c == 't' { 'T' } else if c == 'u' { 'U' }
    else if c == 'v' { 'V' } else if c == 'w' { 'W' } else if c == 'x' { 'X' }
    else if c == 'y' { 'Y' } else if c == 'z' { 'Z' } else { c }
}

/// The pascal-case spelling of the characters from `s` onward: underscores
/// vanish, and a character right after an underscore — or at the start —
/// is upper-cased.
pub open spec fn pascal_of(s: Seq<char>, capitalize: bool) -> Seq<char>
    decreases s.len(),
{
    if s.len() == 0 {
        Seq::empty()
    } else if s[0] == '_' {
        pascal_of(s.skip(1), true)
    } else if capitalize {
        seq![upper_char(s[0])] + pascal_of(s.skip(1), false)
    } else {
        seq![s[0]] + pascal_of(s.skip(1), false)
    }
}

/// The one-character string for the upper-case form of an ASCII lower-case
/// letter.
fn upper_str(c: char) -> (r: &'static str)
    requires
        'a' <= c <= 'z',
    ensures
        r@ == seq![upper_char(c)],
{
    proof {
        reveal_strlit("A"); reveal_strlit("B"); reveal_strlit("C"); reveal_strlit("D");
        reveal_strlit("E"); reveal_strlit("F"); reveal_strlit("G"); reveal_strlit("H");
        reveal_strlit("I"); reveal_strlit("J"); reveal_strlit("K"); reveal_strlit("L");
        reveal_strlit("M"); reveal_strlit("N"); reveal_strlit("O"); reveal_strlit("P");
        reveal_strlit("Q"); reveal_strlit("R"); reveal_strlit("S"); reveal_strlit("T");
        reveal_strlit("U"); reveal_strlit("V"); reveal_strlit("W"); reveal_strlit("X");
        reveal_strlit("Y"); reveal_strlit("Z");
    }
    let r = match c {
        'a' => "A", 'b' => "B", 'c' => "C", 'd' => "D", 'e' => "E", 'f' => "F",
        'g' => "G", 'h' => "H", 'i' => "I", 'j' => "J", 'k' => "K", 'l' => "L",
        'm' => "M", 'n' => "N", 'o' => "O", 'p' => "P", 'q' => "Q", 'r' => "R",
        's' => "S", 't' => "T", 'u' => "U", 'v' => "V", 'w' => "W", 'x' => "X",
        'y' => "Y", _ => "Z",
    };
    proof {
        assert(r@ =~= seq![upper_char(c)]);
    }
    r
}

/// The pascal-case spelling of a snake-case field name, as the generated
/// per-schema facade spells its type names.
pub fn to_pascal_case(s: &str) -> (r: String)
    ensures
        r@ == pascal_of(s@, true),
{
    let n = s.unicode_len();
    let mut result = String::new();
    let mut capitalize_next = true;
    let mut i: usize = 0;
    proof {
        assert(s@.skip(0) =~= s@);
        assert(result@ + pascal_of(s@, true) =~= pascal_of(s@, true));
    }
    while i < n
        invariant
            n == s@.len(),
            i <= n,
            result@ + pascal_of(s@.skip(i as int), capitalize_next) == pascal_of(s@, true),
        decreases n - i,
    {
        let ghost rest = s@.skip(i as int);
        let c = s.get_char(i);
        if c == '_' {
            capitalize_next = true;
        } else if capitalize_next {
            if 'a' <= c && c <= 'z' {
                result.append(upper_str(c));
            } else {
                result.append(s.substring_char(i, i + 1));
                proof {
                    assert(seq![upper_char(rest[0])] =~= seq![rest[0]]);
                }
            }
            capitalize_next = false;
        } else {
            result.append(s.substring_char(i, i + 1));
        }
        i += 1;
        proof {
            assert(rest.skip(1) =~= s@.skip(i as int));
            assert(result@ + pascal_of(s@.skip(i as int), capitalize_next) =~= pascal_of(
                s@,
                true,
            ));
        }
    }
    proof {
        assert(s@.skip(n as int) =~= Seq::<char>::empty());
    }
    result
}

} // verus!
