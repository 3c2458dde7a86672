//! Records and the field-access capability.
//!
//! A record is an externally owned, typed value: the engine only needs its
//! type's canonical noun name and read access to named string fields.  The
//! `FieldAccessor` trait is that capability; indexable record types
//! implement it.  Reading a field has three outcomes: the field is not a
//! field of the record's type at all, the field exists but carries no value
//! on this instance, or the field carries a value.

use vstd::prelude::*;
use crate::text::str_eq;

verus! {

/// The abstract outcome of reading a named field off a record.
pub enum LookupSpec {
    /// The name is not a field of the record's type.
    UnknownField,
    /// The field exists on the type but holds no value on this instance.
    NoValue,
    /// The field holds this value.
    Value(Seq<char>),
}

/// The concrete outcome of reading a named field off a record.
#[derive(Debug, PartialEq, Eq)]
pub enum FieldLookup {
    UnknownField,
    NoValue,
    Value(String),
}

impl View for FieldLookup {
    type V = LookupSpec;

    open spec fn view(&self) -> LookupSpec {
        match self {
            FieldLookup::UnknownField => LookupSpec::UnknownField,
            FieldLookup::NoValue => LookupSpec::NoValue,
            FieldLookup::Value(s) => LookupSpec::Value(s@),
        }
    }
}

/// Read access to a record: its type's canonical noun name and its named
/// fields.  The engine never mutates a record.
pub trait FieldAccessor {
    /// The canonical noun name of the record's type: lower case, as the
    /// engine's write contract requires of it.
    spec fn noun_spec(&self) -> Seq<char>;

    /// What reading the named field yields on this record.
    spec fn field_spec(&self, name: Seq<char>) -> LookupSpec;

    /// The canonical noun name of the record's type, as `noun_spec`
    /// gives it.
    fn noun_name(&self) -> (r: String)
        ensures
            r@ == self.noun_spec(),
    ;

    /// Read the named field off the record.
    fn lookup_field(&self, name: &str) -> (r: FieldLookup)
        ensures
            r@ == self.field_spec(name@),
    ;
}

/// First value bound to `name` in an association list, if any.
pub open spec fn assoc(pairs: Seq<(Seq<char>, Seq<char>)>, name: Seq<char>) -> Option<Seq<char>>
    decreases pairs.len(),
{
    if pairs.len() == 0 {
        None
    } else if pairs[0].0 == name {
        Some(pairs[0].1)
    } else {
        assoc(pairs.drop_first(), name)
    }
}

/// Whether `name` occurs in `names`.
pub open spec fn has_name(names: Seq<Seq<char>>, name: Seq<char>) -> bool {
    exists|i: int| 0 <= i < names.len() && names[i] == name
}

/// A plain record: a noun name, the fields its type declares, and the
/// values this instance holds.  A value's field name need not be declared;
/// a held value always wins over the declared list.
pub struct SimpleRecord {
    /// Canonical noun name of the record's type.
    pub noun: String,
    /// The field names the record's type declares.
    pub declared: Vec<String>,
    /// The `(field, value)` pairs this instance holds; on a repeated field
    /// name the first pair wins.
    pub values: Vec<(String, String)>,
}

impl SimpleRecord {
    /// The instance's `(field, value)` pairs, as sequences.
    pub open spec fn pairs_spec(&self) -> Seq<(Seq<char>, Seq<char>)> {
        self.values@.map(|_i: int, p: (String, String)| (p.0@, p.1@))
    }

    /// The declared field names, as sequences.
    pub open spec fn declared_spec(&self) -> Seq<Seq<char>> {
        self.declared@.map(|_i: int, n: String| n@)
    }
}

impl FieldAccessor for SimpleRecord {
    open spec fn noun_spec(&self) -> Seq<char> {
        self.noun@
    }

    open spec fn field_spec(&self, name: Seq<char>) -> LookupSpec {
        match assoc(self.pairs_spec(), name) {
            Some(v) => LookupSpec::Value(v),
            None => if has_name(self.declared_spec(), name) {
                LookupSpec::NoValue
            } else {
                LookupSpec::UnknownField
            },
        }
    }

    fn noun_name(&self) -> (r: String) {
        self.noun.clone()
    }

    fn lookup_field(&self, name: &str) -> (r: FieldLookup) {
        let mut i: usize = 0;
        while i < self.values.len()
            invariant
                i <= self.values@.len(),
                forall|j: int| 0 <= j < i ==> self.pairs_spec()[j].0 != name@,
            decreases self.values@.len() - i,
        {
            if str_eq(self.values[i].0.as_str(), name) {
                proof {
                    lemma_assoc_found(self.pairs_spec(), name@, i as int);
                }
                return FieldLookup::Value(self.values[i].1.clone());
            }
            i += 1;
        }
        proof {
            lemma_assoc_none(self.pairs_spec(), name@);
        }
        let mut k: usize = 0;
        while k < self.declared.len()
            invariant
                k <= self.declared@.len(),
                assoc(self.pairs_spec(), name@) is None,
                forall|j: int| 0 <= j < k ==> self.declared_spec()[j] != name@,
            decreases self.declared@.len() - k,
        {
            if str_eq(self.declared[k].as_str(), name) {
                proof {
                    assert(has_name(self.declared_spec(), name@)) by {
                        assert(self.declared_spec()[k as int] == name@);
                    }
                }
                return FieldLookup::NoValue;
            }
            k += 1;
        }
        FieldLookup::UnknownField
    }
}

/// If no pair before `i` is named `name` and pair `i` is, then `assoc`
/// yields pair `i`'s value.
proof fn lemma_assoc_found(pairs: Seq<(Seq<char>, Seq<char>)>, name: Seq<char>, i: int)
    requires
        0 <= i < pairs.len(),
        pairs[i].0 == name,
        forall|j: int| 0 <= j < i ==> pairs[j].0 != name,
    ensures
        assoc(pairs, name) == Some(pairs[i].1),
    decreases i,
{
    if i > 0 {
        lemma_assoc_found(pairs.drop_first(), name, i - 1);
    }
}

/// If no pair is named `name`, `assoc` yields nothing.
proof fn lemma_assoc_none(pairs: Seq<(Seq<char>, Seq<char>)>, name: Seq<char>)
    requires
        forall|j: int| 0 <= j < pairs.len() ==> pairs[j].0 != name,
    ensures
        assoc(pairs, name) is None,
    decreases pairs.len(),
{
    if pairs.len() > 0 {
        lemma_assoc_none(pairs.drop_first(), name);
    }
}

} // verus!
