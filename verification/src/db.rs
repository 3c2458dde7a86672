//! The index engine: the composition root that ties the schema catalog,
//! the key deriver and the index store together.
//!
//! On a write, the engine resolves the record's noun name and id, looks
//! the noun up in the catalog, derives each configured index's key and
//! writes `key -> id` through the store, one index at a time, first
//! writer wins.  A noun with no schema is indexable by nothing: the write
//! returns the id and touches no index.  A failed key derivation skips
//! only that index.  Because every index write commits on its own, a
//! store failure part-way leaves the record indexed in a prefix of its
//! indexes; the error reports it to the caller.

use vstd::prelude::*;
use vstd::string::*;
use vstd::utf8::encode_utf8;
use crate::record::{FieldAccessor, FieldLookup};
use crate::text::folded_chars;
use crate::schema::{sub_db_name, Index, Schemas};
use crate::store::{db_entries, PutOutcome, Store, StoreError};

verus! {

/// What one index write did, as reported to the caller; these reports
/// are the engine's diagnostics channel, for the caller to log or drop.
#[derive(Debug, PartialEq, Eq)]
pub enum IndexOutcome {
    /// The derived key was absent: `key -> id` is now stored.
    Written { index: String, key: Vec<u8> },
    /// The derived key was already bound to `existing`, which stays.
    Exists { index: String, key: Vec<u8>, existing: String },
    /// Key derivation failed: `field` exists on the record's type but
    /// holds no value; this index was skipped.
    KeyFailed { index: String, field: String },
}

/// The abstract value of an `IndexOutcome`.
pub enum OutcomeSpec {
    Written { index: Seq<char>, key: Seq<u8> },
    Exists { index: Seq<char>, key: Seq<u8>, existing: Seq<char> },
    KeyFailed { index: Seq<char>, field: Seq<char> },
}

impl View for IndexOutcome {
    type V = OutcomeSpec;

    open spec fn view(&self) -> OutcomeSpec {
        match self {
            IndexOutcome::Written { index, key } => OutcomeSpec::Written {
                index: index@,
                key: key@,
            },
            IndexOutcome::Exists { index, key, existing } => OutcomeSpec::Exists {
                index: index@,
                key: key@,
                existing: existing@,
            },
            IndexOutcome::KeyFailed { index, field } => OutcomeSpec::KeyFailed {
                index: index@,
                field: field@,
            },
        }
    }
}

/// The abstract values of a list of outcomes.
pub open spec fn outcome_views(s: Seq<IndexOutcome>) -> Seq<OutcomeSpec> {
    s.map(|_i: int, o: IndexOutcome| o@)
}

/// One index write of one record against the store map `m`: derive the
/// key; on failure skip; otherwise bind `key -> id` in the index's
/// sub-database unless the key is already bound, in which case the
/// existing binding stays.
pub open spec fn apply_index<R: FieldAccessor>(
    m: Map<Seq<char>, Map<Seq<u8>, Seq<char>>>,
    noun: Seq<char>,
    idx: Index,
    rec: &R,
    id: Seq<char>,
) -> (Map<Seq<char>, Map<Seq<u8>, Seq<char>>>, OutcomeSpec) {
    match idx.key_spec(rec) {
        Err(f) => (m, OutcomeSpec::KeyFailed { index: idx.name@, field: f }),
        Ok(k) => {
            let db = sub_db_name(noun, idx.name@);
            if db_entries(m, db).contains_key(k) {
                (
                    m,
                    OutcomeSpec::Exists {
                        index: idx.name@,
                        key: k,
                        existing: db_entries(m, db)[k],
                    },
                )
            } else {
                (
                    m.insert(db, db_entries(m, db).insert(k, id)),
                    OutcomeSpec::Written { index: idx.name@, key: k },
                )
            }
        },
    }
}

/// All index writes of one record, in catalog order: the store map after
/// them, and one outcome per index.
pub open spec fn run_indexes<R: FieldAccessor>(
    m: Map<Seq<char>, Map<Seq<u8>, Seq<char>>>,
    noun: Seq<char>,
    idxs: Seq<Index>,
    rec: &R,
    id: Seq<char>,
) -> (Map<Seq<char>, Map<Seq<u8>, Seq<char>>>, Seq<OutcomeSpec>)
    decreases idxs.len(),
{
    if idxs.len() == 0 {
        (m, Seq::empty())
    } else {
        let step = apply_index(m, noun, idxs[0], rec, id);
        let rest = run_indexes(step.0, noun, idxs.drop_first(), rec, id);
        (rest.0, seq![step.1] + rest.1)
    }
}

/// How one more index extends a run.
proof fn lemma_run_push<R: FieldAccessor>(
    m: Map<Seq<char>, Map<Seq<u8>, Seq<char>>>,
    noun: Seq<char>,
    idxs: Seq<Index>,
    x: Index,
    rec: &R,
    id: Seq<char>,
)
    ensures
        run_indexes(m, noun, idxs.push(x), rec, id).0 == apply_index(
            run_indexes(m, noun, idxs, rec, id).0,
            noun,
            x,
            rec,
            id,
        ).0,
        run_indexes(m, noun, idxs.push(x), rec, id).1 == run_indexes(m, noun, idxs, rec, id).1.push(
            apply_index(run_indexes(m, noun, idxs, rec, id).0, noun, x, rec, id).1,
        ),
    decreases idxs.len(),
{
    if idxs.len() == 0 {
        assert(idxs.push(x).drop_first() =~= Seq::<Index>::empty());
        let step = apply_index(m, noun, x, rec, id);
        assert(run_indexes(step.0, noun, Seq::empty(), rec, id).1 == Seq::<OutcomeSpec>::empty());
        assert(seq![step.1] + Seq::<OutcomeSpec>::empty() =~= Seq::<OutcomeSpec>::empty().push(
            step.1,
        ));
    } else {
        let step = apply_index(m, noun, idxs[0], rec, id);
        lemma_run_push(step.0, noun, idxs.drop_first(), x, rec, id);
        assert(idxs.push(x).drop_first() =~= idxs.drop_first().push(x));
        let rest = run_indexes(step.0, noun, idxs.drop_first(), rec, id);
        let last = apply_index(run_indexes(m, noun, idxs, rec, id).0, noun, x, rec, id);
        assert(seq![step.1] + rest.1.push(last.1) =~= (seq![step.1] + rest.1).push(last.1));
    }
}

/// The first writer wins: a key bound in some sub-database before a
/// record's index writes is bound to the same id afterwards — a later
/// write with a colliding key never changes a stored id.
pub proof fn lemma_first_writer_wins<R: FieldAccessor>(
    m: Map<Seq<char>, Map<Seq<u8>, Seq<char>>>,
    noun: Seq<char>,
    idxs: Seq<Index>,
    rec: &R,
    id: Seq<char>,
    db: Seq<char>,
    k: Seq<u8>,
)
    requires
        db_entries(m, db).contains_key(k),
    ensures
        db_entries(run_indexes(m, noun, idxs, rec, id).0, db).contains_key(k),
        db_entries(run_indexes(m, noun, idxs, rec, id).0, db)[k] == db_entries(m, db)[k],
    decreases idxs.len(),
{
    if idxs.len() > 0 {
        let step = apply_index(m, noun, idxs[0], rec, id);
        assert(db_entries(step.0, db).contains_key(k) && db_entries(step.0, db)[k] == db_entries(
            m,
            db,
        )[k]);
        lemma_first_writer_wins(step.0, noun, idxs.drop_first(), rec, id, db, k);
    }
}

/// A run reports exactly one outcome per index.
pub proof fn lemma_run_len<R: FieldAccessor>(
    m: Map<Seq<char>, Map<Seq<u8>, Seq<char>>>,
    noun: Seq<char>,
    idxs: Seq<Index>,
    rec: &R,
    id: Seq<char>,
)
    ensures
        run_indexes(m, noun, idxs, rec, id).1.len() == idxs.len(),
    decreases idxs.len(),
{
    if idxs.len() > 0 {
        lemma_run_len(apply_index(m, noun, idxs[0], rec, id).0, noun, idxs.drop_first(), rec, id);
    }
}

/// After a record's index writes, every index whose key derivation
/// succeeded has its key bound in its sub-database.
proof fn lemma_run_covers<R: FieldAccessor>(
    m: Map<Seq<char>, Map<Seq<u8>, Seq<char>>>,
    noun: Seq<char>,
    idxs: Seq<Index>,
    rec: &R,
    id: Seq<char>,
)
    ensures
        forall|t: int|
            #![trigger idxs[t]]
            0 <= t < idxs.len() && idxs[t].key_spec(rec) is Ok ==> db_entries(
                run_indexes(m, noun, idxs, rec, id).0,
                sub_db_name(noun, idxs[t].name@),
            ).contains_key(idxs[t].key_spec(rec)->Ok_0),
    decreases idxs.len(),
{
    if idxs.len() > 0 {
        let step = apply_index(m, noun, idxs[0], rec, id);
        lemma_run_covers(step.0, noun, idxs.drop_first(), rec, id);
        assert forall|t: int|
            0 <= t < idxs.len() && #[trigger] idxs[t].key_spec(rec) is Ok implies db_entries(
            run_indexes(m, noun, idxs, rec, id).0,
            sub_db_name(noun, idxs[t].name@),
        ).contains_key(idxs[t].key_spec(rec)->Ok_0) by {
            if t == 0 {
                let db = sub_db_name(noun, idxs[0].name@);
                let k = idxs[0].key_spec(rec)->Ok_0;
                assert(db_entries(step.0, db).contains_key(k));
                lemma_first_writer_wins(step.0, noun, idxs.drop_first(), rec, id, db, k);
            } else {
                assert(idxs.drop_first()[t - 1] == idxs[t]);
            }
        }
    }
}

/// When every successfully derived key is already bound, the index
/// writes change nothing and no index reports a write.
proof fn lemma_run_noop<R: FieldAccessor>(
    m: Map<Seq<char>, Map<Seq<u8>, Seq<char>>>,
    noun: Seq<char>,
    idxs: Seq<Index>,
    rec: &R,
    id: Seq<char>,
)
    requires
        forall|t: int|
            #![trigger idxs[t]]
            0 <= t < idxs.len() && idxs[t].key_spec(rec) is Ok ==> db_entries(
                m,
                sub_db_name(noun, idxs[t].name@),
            ).contains_key(idxs[t].key_spec(rec)->Ok_0),
    ensures
        run_indexes(m, noun, idxs, rec, id).0 == m,
        forall|t: int|
            0 <= t < idxs.len() ==> !(#[trigger] run_indexes(m, noun, idxs, rec, id).1[t] is Written),
    decreases idxs.len(),
{
    if idxs.len() > 0 {
        let step = apply_index(m, noun, idxs[0], rec, id);
        assert(step.0 == m);
        assert(!(step.1 is Written));
        assert forall|t: int|
            #![trigger idxs.drop_first()[t]]
            0 <= t < idxs.drop_first().len() && idxs.drop_first()[t].key_spec(rec)
                is Ok implies db_entries(
            m,
            sub_db_name(noun, idxs.drop_first()[t].name@),
        ).contains_key(idxs.drop_first()[t].key_spec(rec)->Ok_0) by {
            assert(idxs.drop_first()[t] == idxs[t + 1]);
        }
        lemma_run_noop(m, noun, idxs.drop_first(), rec, id);
        lemma_run_len(m, noun, idxs.drop_first(), rec, id);
        lemma_run_len(m, noun, idxs, rec, id);
        assert forall|t: int|
            0 <= t < idxs.len() implies !(#[trigger] run_indexes(m, noun, idxs, rec, id).1[t]
            is Written) by {
            if t > 0 {
                assert(run_indexes(m, noun, idxs, rec, id).1[t] == run_indexes(
                    m,
                    noun,
                    idxs.drop_first(),
                    rec,
                    id,
                ).1[t - 1]);
            }
        }
    }
}

/// Index writes are idempotent: running the same record's index writes a
/// second time leaves exactly the entries the first run left, and the
/// second run writes nothing — every index either fails key derivation
/// as before or finds its key already bound.
pub proof fn lemma_put_idempotent<R: FieldAccessor>(
    m: Map<Seq<char>, Map<Seq<u8>, Seq<char>>>,
    noun: Seq<char>,
    idxs: Seq<Index>,
    rec: &R,
    id: Seq<char>,
)
    ensures
        ({
            let once = run_indexes(m, noun, idxs, rec, id).0;
            let twice = run_indexes(once, noun, idxs, rec, id);
            &&& twice.0 == once
            &&& forall|t: int| 0 <= t < idxs.len() ==> !(#[trigger] twice.1[t] is Written)
        }),
{
    lemma_run_covers(m, noun, idxs, rec, id);
    lemma_run_noop(run_indexes(m, noun, idxs, rec, id).0, noun, idxs, rec, id);
}

/// A lookup after a write finds the record: when index `t` derives key
/// `k` and `k` was not bound before, the record's index writes bind `k`
/// to the record's id in that index's sub-database.
pub proof fn lemma_get_after_put<R: FieldAccessor>(
    m: Map<Seq<char>, Map<Seq<u8>, Seq<char>>>,
    noun: Seq<char>,
    idxs: Seq<Index>,
    rec: &R,
    id: Seq<char>,
    t: int,
)
    requires
        0 <= t < idxs.len(),
        idxs[t].key_spec(rec) is Ok,
        !db_entries(m, sub_db_name(noun, idxs[t].name@)).contains_key(idxs[t].key_spec(rec)->Ok_0),
    ensures
        db_entries(run_indexes(m, noun, idxs, rec, id).0, sub_db_name(noun, idxs[t].name@)).contains_key(
            idxs[t].key_spec(rec)->Ok_0,
        ),
        db_entries(run_indexes(m, noun, idxs, rec, id).0, sub_db_name(noun, idxs[t].name@))[idxs[t].key_spec(
            rec,
        )->Ok_0] == id,
    decreases idxs.len(),
{
    let db = sub_db_name(noun, idxs[t].name@);
    let k = idxs[t].key_spec(rec)->Ok_0;
    let step = apply_index(m, noun, idxs[0], rec, id);
    if t == 0 {
        assert(db_entries(step.0, db).contains_key(k) && db_entries(step.0, db)[k] == id);
        lemma_first_writer_wins(step.0, noun, idxs.drop_first(), rec, id, db, k);
    } else {
        assert(idxs.drop_first()[t - 1] == idxs[t]);
        if db_entries(step.0, db).contains_key(k) {
            assert(db_entries(step.0, db)[k] == id);
            lemma_first_writer_wins(step.0, noun, idxs.drop_first(), rec, id, db, k);
        } else {
            lemma_get_after_put(step.0, noun, idxs.drop_first(), rec, id, t - 1);
        }
    }
}

/// A record write's report: the record's id and, per configured index in
/// catalog order, what happened.
#[derive(Debug)]
pub struct PutReport {
    pub id: String,
    pub outcomes: Vec<IndexOutcome>,
}

/// The index engine: the store, the catalog, and the directory that
/// holds one primary-content file per id.
pub struct Db {
    pub store: Store,
    pub schemas: Schemas,
    pub file_path: String,
}

impl Db {
    /// Compose an engine from an opened store, a loaded catalog, and the
    /// primary-content directory path.
    pub fn new(store: Store, schemas: Schemas, file_path: String) -> (r: Db)
        ensures
            r.store@ == store@,
            r.schemas == schemas,
            r.file_path == file_path,
    {
        Db { store, schemas, file_path }
    }

    /// The path of the flat file holding the primary content of `id`.
    pub fn filename_from_id(&self, id: &str) -> (r: String)
        ensures
            r@ == self.file_path@ + "/"@ + id@,
    {
        let mut s = self.file_path.clone();
        s.append("/");
        s.append(id);
        s
    }

    /// Write one record's index entries and return its id.
    ///
    /// The record's own id field is the id stored; the engine does not
    /// mint ids on write.  The noun name is the record type's canonical
    /// name, already lower case, as the `requires` states; the caller
    /// resolves it before constructing the record.  A noun with no
    /// schema writes nothing and the write succeeds.  Each configured
    /// index derives its key and binds `key -> id` unless the key is
    /// already bound; the first writer always wins.  Only the store can
    /// fail: an error comes only when some index's key reached it, stops
    /// the write after a prefix of the indexes, and is returned; the
    /// entries already written stay.
    pub fn put<R: FieldAccessor>(&mut self, value: &R) -> (r: Result<PutReport, StoreError>)
        requires
            value.field_spec("id"@) is Value,
            folded_chars(value.noun_spec()),
        ensures
            final(self).schemas == old(self).schemas,
            final(self).file_path == old(self).file_path,
            r is Err ==> ({
                let cat = old(self).schemas.get_spec(value.noun_spec());
                cat is Some && exists|t: int|
                    0 <= t < cat->Some_0.indexes@.len() && (#[trigger] cat->Some_0.indexes@[t].key_spec(
                        value,
                    )) is Ok
            }),
            match r {
                Ok(report) => {
                    &&& report.id@ == value.field_spec("id"@)->Value_0
                    &&& match old(self).schemas.get_spec(value.noun_spec()) {
                        None => final(self).store@ == old(self).store@ && report.outcomes@.len()
                            == 0,
                        Some(sch) => {
                            &&& final(self).store@ == run_indexes(
                                old(self).store@,
                                value.noun_spec(),
                                sch.indexes@,
                                value,
                                report.id@,
                            ).0
                            &&& outcome_views(report.outcomes@) == run_indexes(
                                old(self).store@,
                                value.noun_spec(),
                                sch.indexes@,
                                value,
                                report.id@,
                            ).1
                        },
                    }
                },
                Err(_) => ({
                    let cat = old(self).schemas.get_spec(value.noun_spec());
                    &&& cat is None ==> final(self).store@ == old(self).store@
                    &&& cat is Some ==> exists|j: int|
                        0 <= j <= cat->Some_0.indexes@.len() && final(self).store@ == run_indexes(
                            old(self).store@,
                            value.noun_spec(),
                            cat->Some_0.indexes@.take(j),
                            value,
                            value.field_spec("id"@)->Value_0,
                        ).0
                }),
            },
    {
        let noun = value.noun_name();
        let looked = value.lookup_field("id");
        let id = if let FieldLookup::Value(s) = looked {
            s
        } else {
            proof {
                assert(false);
            }
            vstd::pervasive::unreached()
        };
        let schema_opt = self.schemas.get(noun.as_str());
        match schema_opt {
            None => Ok(PutReport { id, outcomes: Vec::new() }),
            Some(sch) => {
                let ghost m0 = self.store@;
                let ghost nounv = value.noun_spec();
                let ghost idv = id@;
                let mut outcomes: Vec<IndexOutcome> = Vec::new();
                proof {
                    assert(sch.indexes@.take(0) =~= Seq::<Index>::empty());
                    assert(outcome_views(outcomes@) =~= Seq::<OutcomeSpec>::empty());
                }
                let mut i: usize = 0;
                while i < sch.indexes.len()
                    invariant
                        i <= sch.indexes@.len(),
                        self.schemas == old(self).schemas,
                        self.file_path == old(self).file_path,
                        old(self).schemas.get_spec(nounv) == Some(*sch),
                        m0 == old(self).store@,
                        nounv == value.noun_spec(),
                        noun@ == nounv,
                        id@ == idv,
                        idv == value.field_spec("id"@)->Value_0,
                        self.store@ == run_indexes(
                            m0,
                            nounv,
                            sch.indexes@.take(i as int),
                            value,
                            idv,
                        ).0,
                        outcome_views(outcomes@) == run_indexes(
                            m0,
                            nounv,
                            sch.indexes@.take(i as int),
                            value,
                            idv,
                        ).1,
                    decreases sch.indexes@.len() - i,
                {
                    let idx = &sch.indexes[i];
                    let ghost pre_outs = outcome_views(outcomes@);
                    proof {
                        lemma_run_push(
                            m0,
                            nounv,
                            sch.indexes@.take(i as int),
                            sch.indexes@[i as int],
                            value,
                            idv,
                        );
                        assert(sch.indexes@.take(i as int).push(sch.indexes@[i as int])
                            =~= sch.indexes@.take(i + 1));
                    }
                    match idx.get_key(value) {
                        Err(e) => {
                            outcomes.push(IndexOutcome::KeyFailed { index: e.index, field: e.field });
                            proof {
                                assert(outcome_views(outcomes@) =~= pre_outs.push(
                                    apply_index(self.store@, nounv, sch.indexes@[i as int], value, idv).1,
                                ));
                            }
                        },
                        Ok(key) => {
                            let db = self.schemas.db_name(noun.as_str(), idx.name.as_str());
                            let outcome = self.store.put_if_absent(db.as_str(), &key, id.as_str());
                            match outcome {
                                Ok(PutOutcome::Inserted) => {
                                    let ghost prev = run_indexes(
                                        m0,
                                        nounv,
                                        sch.indexes@.take(i as int),
                                        value,
                                        idv,
                                    ).0;
                                    outcomes.push(
                                        IndexOutcome::Written { index: idx.name.clone(), key },
                                    );
                                    proof {
                                        assert(outcome_views(outcomes@) =~= pre_outs.push(
                                            apply_index(prev, nounv, sch.indexes@[i as int], value, idv).1,
                                        ));
                                    }
                                },
                                Ok(PutOutcome::AlreadyExists(existing)) => {
                                    outcomes.push(
                                        IndexOutcome::Exists {
                                            index: idx.name.clone(),
                                            key,
                                            existing,
                                        },
                                    );
                                    proof {
                                        assert(outcome_views(outcomes@) =~= pre_outs.push(
                                            apply_index(self.store@, nounv, sch.indexes@[i as int], value, idv).1,
                                        ));
                                    }
                                },
                                Err(er) => {
                                    proof {
                                        let ghost cat = old(self).schemas.get_spec(
                                            value.noun_spec(),
                                        );
                                        assert(cat == Some(*sch));
                                        assert(0 <= i as int <= cat->Some_0.indexes@.len()
                                            && self.store@ == run_indexes(
                                            old(self).store@,
                                            value.noun_spec(),
                                            cat->Some_0.indexes@.take(i as int),
                                            value,
                                            value.field_spec("id"@)->Value_0,
                                        ).0);
                                        assert(cat->Some_0.indexes@[i as int].key_spec(
                                            value,
                                        ) is Ok);
                                    }
                                    return Err(er);
                                },
                            }
                        },
                    }
                    i += 1;
                }
                proof {
                    assert(sch.indexes@.take(sch.indexes@.len() as int) =~= sch.indexes@);
                }
                Ok(PutReport { id, outcomes })
            },
        }
    }

    /// Point lookup: resolve the sub-database of `(noun, index)` and look
    /// the key up; `NotFound` exactly when no such entry was written.
    pub fn get(&self, noun_name: &str, index_name: &str, key: String) -> (r: Result<
        String,
        StoreError,
    >)
        ensures
            ({
                let db = if self.schemas.contains_spec(noun_name@) {
                    sub_db_name(noun_name@, index_name@)
                } else {
                    "error"@
                };
                match r {
                    Ok(v) => db_entries(self.store@, db).contains_key(encode_utf8(key@))
                        && db_entries(self.store@, db)[encode_utf8(key@)] == v@,
                    Err(StoreError::NotFound) => !db_entries(self.store@, db).contains_key(
                        encode_utf8(key@),
                    ),
                    Err(StoreError::Unavailable) => true,
                }
            }),
    {
        let db = self.schemas.db_name(noun_name, index_name);
        let kb = key.as_str().as_bytes_vec();
        self.store.get(db.as_str(), &kb)
    }

    /// Enumerate one sub-database, for observability; an explicit
    /// operation, never part of the write path.
    pub fn dump(&self, name: &str) -> (r: Result<Vec<(Vec<u8>, String)>, StoreError>)
        ensures
            match r {
                Ok(v) => {
                    &&& forall|i: int|
                        #![trigger v@[i]]
                        0 <= i < v@.len() ==> db_entries(self.store@, name@).contains_key(v@[i].0@)
                            && db_entries(self.store@, name@)[v@[i].0@] == v@[i].1@
                    &&& forall|i: int, j: int| 0 <= i < j < v@.len() ==> v@[i].0@ != v@[j].0@
                    &&& forall|k: Seq<u8>|
                        #![trigger db_entries(self.store@, name@).contains_key(k)]
                        db_entries(self.store@, name@).contains_key(k) ==> exists|i: int|
                            0 <= i < v@.len() && #[trigger] v@[i].0@ == k
                },
                Err(StoreError::NotFound) => forall|k: Seq<u8>|
                    !db_entries(self.store@, name@).contains_key(k),
                Err(StoreError::Unavailable) => true,
            },
    {
        self.store.entries(name)
    }
}

} // verus!
