//! The schema catalog and the key deriver.
//!
//! A catalog maps each noun name to a schema: an ordered list of index
//! definitions.  An index derives a composite byte key from a record by
//! reading its listed fields in order, joining the values with the ASCII
//! `:` separator, and optionally case-folding the result.  A field the
//! record's type does not declare contributes nothing to the key (the
//! write still proceeds, with a degraded key); a declared field with no
//! value on the instance fails the derivation for this one index.

use vstd::prelude::*;
use vstd::string::*;
use vstd::utf8::encode_utf8;
use crate::record::{FieldAccessor, FieldLookup, LookupSpec};
use crate::text::{lower_bytes, str_eq, to_lower};

verus! {

/// Index options.  Only `lowercase` has a defined effect: it case-folds
/// the composed key before storage.  `multi` and `unique` are declared by
/// schemas but not enforced by the engine.
#[derive(Clone, Copy)]
pub struct Options {
    pub multi: bool,
    pub unique: bool,
    pub lowercase: bool,
}

/// One index definition: a name, the ordered field names that compose the
/// key, and options.
pub struct Index {
    pub name: String,
    pub fields: Vec<String>,
    pub options: Options,
}

/// One noun's schema: its ordered index definitions.
pub struct Schema {
    pub indexes: Vec<Index>,
}

/// Failure of one index's key derivation: the named field exists on the
/// record's type but holds no value on this instance.
pub struct KeyError {
    /// The index whose derivation failed.
    pub index: String,
    /// The field with no value.
    pub field: String,
}

/// The ordered key parts an index derives from a record: for each listed
/// field, in order, the UTF-8 bytes of its value; a field unknown to the
/// record's type is skipped; a known field with no value fails the
/// derivation and names the field.
pub open spec fn key_parts<R: FieldAccessor>(rec: &R, fields: Seq<Seq<char>>) -> Result<
    Seq<Seq<u8>>,
    Seq<char>,
>
    decreases fields.len(),
{
    if fields.len() == 0 {
        Ok(Seq::empty())
    } else {
        match rec.field_spec(fields[0]) {
            LookupSpec::UnknownField => key_parts(rec, fields.drop_first()),
            LookupSpec::NoValue => Err(fields[0]),
            LookupSpec::Value(v) => match key_parts(rec, fields.drop_first()) {
                Ok(rest) => Ok(seq![encode_utf8(v)] + rest),
                Err(e) => Err(e),
            },
        }
    }
}

/// The parts joined with the ASCII `:` separator, with no escaping.
pub open spec fn join_parts(parts: Seq<Seq<u8>>) -> Seq<u8>
    decreases parts.len(),
{
    if parts.len() == 0 {
        Seq::empty()
    } else if parts.len() == 1 {
        parts[0]
    } else {
        parts[0] + seq![58u8] + join_parts(parts.drop_first())
    }
}

/// The byte strings a sequence of byte vectors views as.
pub open spec fn byte_views(parts: Seq<Vec<u8>>) -> Seq<Seq<u8>> {
    parts.map(|_i: int, p: Vec<u8>| p@)
}

/// Appending one more part joins it to the end, behind one separator.
proof fn lemma_join_push(parts: Seq<Seq<u8>>, p: Seq<u8>)
    requires
        parts.len() > 0,
    ensures
        join_parts(parts.push(p)) == join_parts(parts) + seq![58u8] + p,
    decreases parts.len(),
{
    if parts.len() == 1 {
        assert(parts.push(p).drop_first() =~= seq![p]);
        assert(join_parts(seq![p]) == p);
        assert(join_parts(parts) == parts[0]);
        assert(join_parts(parts.push(p)) == parts[0] + seq![58u8] + p);
    } else {
        lemma_join_push(parts.drop_first(), p);
        assert(parts.push(p).drop_first() =~= parts.drop_first().push(p));
        assert(join_parts(parts.push(p)) == parts[0] + seq![58u8] + (join_parts(
            parts.drop_first(),
        ) + seq![58u8] + p));
        assert(parts[0] + seq![58u8] + (join_parts(parts.drop_first()) + seq![58u8] + p) =~= (
        parts[0] + seq![58u8] + join_parts(parts.drop_first())) + seq![58u8] + p);
    }
}

/// How one more field extends the derived parts.
proof fn lemma_key_parts_push<R: FieldAccessor>(rec: &R, fields: Seq<Seq<char>>, f: Seq<char>)
    ensures
        key_parts(rec, fields.push(f)) == (match key_parts(rec, fields) {
            Err(e) => Err(e),
            Ok(ps) => match rec.field_spec(f) {
                LookupSpec::UnknownField => Ok(ps),
                LookupSpec::NoValue => Err(f),
                LookupSpec::Value(v) => Ok(ps.push(encode_utf8(v))),
            },
        }),
    decreases fields.len(),
{
    if fields.len() == 0 {
        assert(fields.push(f).drop_first() =~= Seq::<Seq<char>>::empty());
        assert(key_parts(rec, Seq::<Seq<char>>::empty()) == Ok::<Seq<Seq<u8>>, Seq<char>>(
            Seq::empty(),
        ));
        match rec.field_spec(f) {
            LookupSpec::Value(v) => {
                assert(seq![encode_utf8(v)] + Seq::<Seq<u8>>::empty() =~= Seq::<
                    Seq<u8>,
                >::empty().push(encode_utf8(v)));
            },
            _ => {},
        }
    } else {
        lemma_key_parts_push(rec, fields.drop_first(), f);
        assert(fields.push(f).drop_first() =~= fields.drop_first().push(f));
        match rec.field_spec(fields[0]) {
            LookupSpec::Value(v) => {
                match key_parts(rec, fields.drop_first()) {
                    Ok(rest) => {
                        match rec.field_spec(f) {
                            LookupSpec::Value(w) => {
                                assert(seq![encode_utf8(v)] + rest.push(encode_utf8(w)) =~= (
                                seq![encode_utf8(v)] + rest).push(encode_utf8(w)));
                            },
                            _ => {},
                        }
                    },
                    Err(_) => {},
                }
            },
            _ => {},
        }
    }
}

/// A derivation that fails on a prefix of the fields fails the same way on
/// the whole list.
proof fn lemma_key_parts_prefix_err<R: FieldAccessor>(rec: &R, fields: Seq<Seq<char>>, j: int)
    requires
        0 <= j <= fields.len(),
        key_parts(rec, fields.take(j)) is Err,
    ensures
        key_parts(rec, fields) == key_parts(rec, fields.take(j)),
    decreases fields.len() - j,
{
    if j == fields.len() {
        assert(fields.take(j) =~= fields);
    } else {
        lemma_key_parts_push(rec, fields.take(j), fields[j]);
        assert(fields.take(j).push(fields[j]) =~= fields.take(j + 1));
        lemma_key_parts_prefix_err(rec, fields, j + 1);
    }
}

/// Join a list of byte vectors with the ASCII `:` separator.
fn join_vec(parts: &Vec<Vec<u8>>) -> (r: Vec<u8>)
    ensures
        r@ == join_parts(byte_views(parts@)),
{
    let mut out: Vec<u8> = Vec::new();
    let mut i: usize = 0;
    while i < parts.len()
        invariant
            i <= parts@.len(),
            out@ == join_parts(byte_views(parts@.take(i as int))),
        decreases parts@.len() - i,
    {
        if i > 0 {
            out.push(58);
        }
        let ghost base = out@;
        let p = &parts[i];
        let mut j: usize = 0;
        while j < p.len()
            invariant
                j <= p@.len(),
                out@ == base + p@.take(j as int),
            decreases p@.len() - j,
        {
            out.push(p[j]);
            proof {
                assert(base + p@.take(j + 1) =~= (base + p@.take(j as int)).push(p@[j as int]));
            }
            j += 1;
        }
        proof {
            assert(p@.take(p@.len() as int) =~= p@);
            assert(byte_views(parts@.take(i + 1)) =~= byte_views(parts@.take(i as int)).push(
                parts@[i as int]@,
            ));
            if i > 0 {
                lemma_join_push(byte_views(parts@.take(i as int)), parts@[i as int]@);
                assert(out@ =~= join_parts(byte_views(parts@.take(i as int))) + seq![58u8]
                    + parts@[i as int]@);
            } else {
                assert(out@ =~= parts@[0]@);
            }
        }
        i += 1;
    }
    proof {
        assert(parts@.take(parts@.len() as int) =~= parts@);
    }
    out
}

impl Index {
    /// The index's field names, as sequences.
    pub open spec fn fields_spec(&self) -> Seq<Seq<char>> {
        self.fields@.map(|_i: int, f: String| f@)
    }

    /// The composite key this index derives from `rec`: the `:`-joined,
    /// ordered UTF-8 values of its fields, case-folded when the index says
    /// so; or the field whose value is missing.
    pub open spec fn key_spec<R: FieldAccessor>(&self, rec: &R) -> Result<Seq<u8>, Seq<char>> {
        match key_parts(rec, self.fields_spec()) {
            Ok(parts) => Ok(
                if self.options.lowercase {
                    lower_bytes(join_parts(parts))
                } else {
                    join_parts(parts)
                },
            ),
            Err(f) => Err(f),
        }
    }

    /// Derive this index's composite key from a record.
    pub fn get_key<R: FieldAccessor>(&self, value: &R) -> (r: Result<Vec<u8>, KeyError>)
        ensures
            match r {
                Ok(k) => self.key_spec(value) == Ok::<Seq<u8>, Seq<char>>(k@),
                Err(e) => {
                    &&& self.key_spec(value) == Err::<Seq<u8>, Seq<char>>(e.field@)
                    &&& e.index@ == self.name@
                },
            },
    {
        let mut parts: Vec<Vec<u8>> = Vec::new();
        let mut i: usize = 0;
        proof {
            assert(self.fields_spec().take(0) =~= Seq::<Seq<char>>::empty());
            assert(byte_views(parts@) =~= Seq::<Seq<u8>>::empty());
        }
        while i < self.fields.len()
            invariant
                i <= self.fields@.len(),
                key_parts(value, self.fields_spec().take(i as int)) == Ok::<
                    Seq<Seq<u8>>,
                    Seq<char>,
                >(byte_views(parts@)),
            decreases self.fields@.len() - i,
        {
            let looked = value.lookup_field(self.fields[i].as_str());
            proof {
                lemma_key_parts_push(
                    value,
                    self.fields_spec().take(i as int),
                    self.fields_spec()[i as int],
                );
                assert(self.fields_spec().take(i as int).push(self.fields_spec()[i as int])
                    =~= self.fields_spec().take(i + 1));
            }
            match looked {
                FieldLookup::Value(v) => {
                    let bytes = v.as_str().as_bytes_vec();
                    parts.push(bytes);
                    proof {
                        assert(byte_views(parts@) =~= key_parts(
                            value,
                            self.fields_spec().take(i + 1),
                        )->Ok_0);
                    }
                },
                FieldLookup::NoValue => {
                    proof {
                        lemma_key_parts_prefix_err(value, self.fields_spec(), i + 1);
                    }
                    return Err(
                        KeyError { index: self.name.clone(), field: self.fields[i].clone() },
                    );
                },
                FieldLookup::UnknownField => {},
            }
            i += 1;
        }
        proof {
            assert(self.fields_spec().take(self.fields_spec().len() as int) =~= self.fields_spec());
        }
        let joined = join_vec(&parts);
        if self.options.lowercase {
            Ok(to_lower(&joined))
        } else {
            Ok(joined)
        }
    }
}

/// The UTF-8 values of the listed fields on a record, in field order;
/// meaningful when every listed field holds a value.
pub open spec fn present_values<R: FieldAccessor>(rec: &R, fields: Seq<Seq<char>>) -> Seq<Seq<u8>> {
    fields.map(|_t: int, f: Seq<char>| encode_utf8(rec.field_spec(f)->Value_0))
}

/// When every listed field holds a value, the derived parts are exactly
/// those values' bytes, in field order.
proof fn lemma_key_parts_all_present<R: FieldAccessor>(rec: &R, fields: Seq<Seq<char>>)
    requires
        forall|t: int| 0 <= t < fields.len() ==> rec.field_spec(#[trigger] fields[t]) is Value,
    ensures
        key_parts(rec, fields) == Ok::<Seq<Seq<u8>>, Seq<char>>(present_values(rec, fields)),
    decreases fields.len(),
{
    if fields.len() == 0 {
        assert(present_values(rec, fields) =~= Seq::<Seq<u8>>::empty());
    } else {
        assert(rec.field_spec(fields[0]) is Value);
        assert forall|t: int|
            0 <= t < fields.drop_first().len() implies rec.field_spec(
            #[trigger] fields.drop_first()[t],
        ) is Value by {
            assert(fields.drop_first()[t] == fields[t + 1]);
        }
        lemma_key_parts_all_present(rec, fields.drop_first());
        assert(seq![encode_utf8(rec.field_spec(fields[0])->Value_0)] + present_values(
            rec,
            fields.drop_first(),
        ) =~= present_values(rec, fields));
    }
}

/// When every field an index lists holds a value on the record, the
/// composite key is the `:`-joined, ordered concatenation of those
/// values' bytes, case-folded exactly when the index says so: the key is
/// a deterministic function of the record's values and the index alone.
pub proof fn lemma_key_all_present<R: FieldAccessor>(idx: &Index, rec: &R)
    requires
        forall|t: int|
            0 <= t < idx.fields_spec().len() ==> rec.field_spec(
                #[trigger] idx.fields_spec()[t],
            ) is Value,
    ensures
        idx.key_spec(rec) == Ok::<Seq<u8>, Seq<char>>(
            if idx.options.lowercase {
                lower_bytes(join_parts(present_values(rec, idx.fields_spec())))
            } else {
                join_parts(present_values(rec, idx.fields_spec()))
            },
        ),
{
    lemma_key_parts_all_present(rec, idx.fields_spec());
}

/// The sub-database that holds one index's entries: `<noun>.<index>`.
pub open spec fn sub_db_name(noun: Seq<char>, index: Seq<char>) -> Seq<char> {
    noun + "."@ + index
}

/// The catalog entries, with their noun names as sequences.
pub open spec fn entry_views(entries: Seq<(String, Schema)>) -> Seq<(Seq<char>, Schema)> {
    entries.map(|_i: int, p: (String, Schema)| (p.0@, p.1))
}

/// The schema of the first entry named `noun`, if any.
pub open spec fn assoc_schema(entries: Seq<(Seq<char>, Schema)>, noun: Seq<char>) -> Option<Schema>
    decreases entries.len(),
{
    if entries.len() == 0 {
        None
    } else if entries[0].0 == noun {
        Some(entries[0].1)
    } else {
        assoc_schema(entries.drop_first(), noun)
    }
}

/// If no entry carries the name, `assoc_schema` finds nothing.
proof fn lemma_assoc_schema_none(entries: Seq<(Seq<char>, Schema)>, noun: Seq<char>)
    requires
        forall|i: int| 0 <= i < entries.len() ==> entries[i].0 != noun,
    ensures
        assoc_schema(entries, noun) is None,
    decreases entries.len(),
{
    if entries.len() > 0 {
        lemma_assoc_schema_none(entries.drop_first(), noun);
    }
}

/// If `assoc_schema` finds nothing, no entry carries the name.
proof fn lemma_assoc_schema_none_names(entries: Seq<(Seq<char>, Schema)>, noun: Seq<char>)
    requires
        assoc_schema(entries, noun) is None,
    ensures
        forall|i: int| 0 <= i < entries.len() ==> entries[i].0 != noun,
    decreases entries.len(),
{
    if entries.len() > 0 {
        lemma_assoc_schema_none_names(entries.drop_first(), noun);
        assert forall|i: int| 0 <= i < entries.len() implies entries[i].0 != noun by {
            if i > 0 {
                assert(entries[i] == entries.drop_first()[i - 1]);
            }
        }
    }
}

/// If no entry before `i` carries the name and entry `i` does, the first
/// match is entry `i`.
proof fn lemma_assoc_schema_found(entries: Seq<(Seq<char>, Schema)>, noun: Seq<char>, i: int)
    requires
        0 <= i < entries.len(),
        entries[i].0 == noun,
        forall|j: int| 0 <= j < i ==> entries[j].0 != noun,
    ensures
        assoc_schema(entries, noun) == Some(entries[i].1),
    decreases i,
{
    if i > 0 {
        lemma_assoc_schema_found(entries.drop_first(), noun, i - 1);
    }
}

/// How one more entry at the end changes the first-match lookup.
proof fn lemma_assoc_schema_push(
    entries: Seq<(Seq<char>, Schema)>,
    e: (Seq<char>, Schema),
    noun: Seq<char>,
)
    ensures
        assoc_schema(entries.push(e), noun) == (match assoc_schema(entries, noun) {
            Some(s) => Some(s),
            None => if e.0 == noun {
                Some(e.1)
            } else {
                None
            },
        }),
    decreases entries.len(),
{
    if entries.len() == 0 {
        assert(entries.push(e).drop_first() =~= Seq::<(Seq<char>, Schema)>::empty());
        assert(assoc_schema(Seq::<(Seq<char>, Schema)>::empty(), noun) is None);
    } else {
        lemma_assoc_schema_push(entries.drop_first(), e, noun);
        assert(entries.push(e).drop_first() =~= entries.drop_first().push(e));
    }
}

/// The schema catalog: a read-only mapping from noun name to schema,
/// loaded once at startup.  Noun names are distinct.
pub struct Schemas {
    entries: Vec<(String, Schema)>,
}

impl Schemas {
    /// The catalog's entries, with noun names as sequences.
    pub closed spec fn entries_spec(&self) -> Seq<(Seq<char>, Schema)> {
        entry_views(self.entries@)
    }

    /// The schema configured for `noun`, if any.
    pub open spec fn get_spec(&self, noun: Seq<char>) -> Option<Schema> {
        assoc_schema(self.entries_spec(), noun)
    }

    /// Whether the catalog knows `noun`.
    pub open spec fn contains_spec(&self, noun: Seq<char>) -> bool {
        self.get_spec(noun) is Some
    }

    /// Noun names are distinct; construction establishes this.
    pub open spec fn wf(&self) -> bool {
        forall|i: int, j: int|
            0 <= i < j < self.entries_spec().len() ==> self.entries_spec()[i].0
                != self.entries_spec()[j].0
    }

    /// Build a catalog from a list of `(noun, schema)` entries.  On a
    /// repeated noun name the first entry wins and the rest are dropped,
    /// so lookups answer exactly as first-match lookup in the input list.
    pub fn from_entries(list: Vec<(String, Schema)>) -> (r: Schemas)
        ensures
            r.wf(),
            forall|n: Seq<char>| r.get_spec(n) == assoc_schema(entry_views(list@), n),
            r.entries_spec().len() <= list@.len(),
    {
        let ghost full = list@;
        let mut rest = list;
        let mut out = Schemas { entries: Vec::new() };
        proof {
            assert(full.take(0) =~= Seq::<(String, Schema)>::empty());
        }
        while rest.len() > 0
            invariant
                rest@.len() <= full.len(),
                rest@ == full.skip(full.len() - rest@.len()),
                out.wf(),
                out.entries_spec().len() <= full.len() - rest@.len(),
                forall|n: Seq<char>|
                    out.get_spec(n) == assoc_schema(
                        entry_views(full.take(full.len() - rest@.len())),
                        n,
                    ),
            decreases rest@.len(),
        {
            let ghost i = full.len() - rest@.len();
            let ghost prev = out.entries_spec();
            proof {
                assert(rest@[0] == full[i]);
                assert forall|n: Seq<char>|
                    assoc_schema(prev, n) == assoc_schema(entry_views(full.take(i)), n) by {
                    assert(out.get_spec(n) == assoc_schema(
                        entry_views(full.take(full.len() - rest@.len())),
                        n,
                    ));
                }
            }
            let pair = rest.remove(0);
            proof {
                assert(rest@ =~= full.skip(i + 1));
            }
            let noun_known = out.contains_noun(pair.0.as_str());
            if !noun_known {
                proof {
                    lemma_assoc_schema_none_names(prev, pair.0@);
                }
                out.entries.push(pair);
                proof {
                    assert(out.entries_spec() =~= prev.push((full[i].0@, full[i].1)));
                }
            }
            proof {
                assert(entry_views(full.take(i + 1)) =~= entry_views(full.take(i)).push(
                    (full[i].0@, full[i].1),
                ));
                assert forall|n: Seq<char>|
                    out.get_spec(n) == assoc_schema(entry_views(full.take(i + 1)), n) by {
                    lemma_assoc_schema_push(entry_views(full.take(i)), (full[i].0@, full[i].1), n);
                    if !noun_known {
                        lemma_assoc_schema_push(prev, (full[i].0@, full[i].1), n);
                    }
                }
            }
        }
        proof {
            assert(full.take(full.len() as int) =~= full);
        }
        out
    }

    /// Whether the catalog knows `noun`.
    fn contains_noun(&self, noun: &str) -> (r: bool)
        ensures
            r == self.contains_spec(noun@),
    {
        let mut i: usize = 0;
        while i < self.entries.len()
            invariant
                i <= self.entries@.len(),
                forall|j: int| 0 <= j < i ==> self.entries_spec()[j].0 != noun@,
            decreases self.entries@.len() - i,
        {
            if str_eq(self.entries[i].0.as_str(), noun) {
                proof {
                    lemma_assoc_schema_found(self.entries_spec(), noun@, i as int);
                }
                return true;
            }
            i += 1;
        }
        proof {
            lemma_assoc_schema_none(self.entries_spec(), noun@);
        }
        false
    }

    /// The number of noun types the catalog holds; used to size the
    /// store's sub-database capacity before it opens.
    pub fn len(&self) -> (r: usize)
        ensures
            r == self.entries_spec().len(),
    {
        self.entries.len()
    }

    /// Look up the schema configured for `noun`.
    pub fn get(&self, noun: &str) -> (r: Option<&Schema>)
        ensures
            match r {
                Some(s) => self.get_spec(noun@) == Some(*s),
                None => self.get_spec(noun@) is None,
            },
    {
        let mut i: usize = 0;
        while i < self.entries.len()
            invariant
                i <= self.entries@.len(),
                forall|j: int| 0 <= j < i ==> self.entries_spec()[j].0 != noun@,
            decreases self.entries@.len() - i,
        {
            if str_eq(self.entries[i].0.as_str(), noun) {
                proof {
                    lemma_assoc_schema_found(self.entries_spec(), noun@, i as int);
                }
                return Some(&self.entries[i].1);
            }
            i += 1;
        }
        proof {
            lemma_assoc_schema_none(self.entries_spec(), noun@);
        }
        None
    }

    /// The sub-database name for one index of a known noun:
    /// `<noun>.<index>`; for an unknown noun, the sentinel name `error`.
    pub fn db_name(&self, noun: &str, index_name: &str) -> (r: String)
        ensures
            r@ == if self.contains_spec(noun@) {
                sub_db_name(noun@, index_name@)
            } else {
                "error"@
            },
    {
        if self.contains_noun(noun) {
            let mut s = noun.to_owned();
            s.append(".");
            s.append(index_name);
            s
        } else {
            "error".to_owned()
        }
    }
}

} // verus!
