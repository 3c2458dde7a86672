//! The index store: one transactional environment holding one
//! sub-database per index, each an ordered map from composite key bytes
//! to an id string.
//!
//! The store is modelled as a map from sub-database name to its entries;
//! a sub-database that was never written is the same as an empty one.
//! Each operation runs in a transaction of its own — the guarded insert
//! holds its presence check and its write in one read-write transaction,
//! so racing writers on one key serialize and exactly one wins — but a
//! `put` touching several indexes is not atomic across them, and a
//! failure between two writes leaves a record indexed in some
//! sub-databases and not in others.  That is an accepted, documented weakness of this
//! design; the store itself never corrupts an entry, and a failed
//! operation leaves the contents as they were.
//!
//! Sub-databases are created on first write; the environment is sized at
//! open time for a fixed number of them and cannot grow past that without
//! reopening.

use vstd::prelude::*;
use std::path::Path;
use lmdb::Cursor;
use lmdb::Transaction;
use crate::text::{contains_nul, has_nul};

verus! {

#[verifier::external_type_specification]
#[verifier::external_body]
pub struct ExEnvironment(lmdb::Environment);

/// What the environment holds: for each sub-database name, the map from
/// key bytes to the stored id string.
pub uninterp spec fn env_dbs(env: lmdb::Environment) -> Map<Seq<char>, Map<Seq<u8>, Seq<char>>>;

/// The entries of one sub-database; a name the environment does not know
/// holds nothing.
pub open spec fn db_entries(m: Map<Seq<char>, Map<Seq<u8>, Seq<char>>>, name: Seq<char>) -> Map<
    Seq<u8>,
    Seq<char>,
> {
    if m.dom().contains(name) {
        m[name]
    } else {
        Map::empty()
    }
}

/// A store failure.
#[derive(Debug, PartialEq, Eq)]
pub enum StoreError {
    /// The key (or the whole sub-database) is absent: a normal, expected
    /// outcome of a lookup, not a fault.
    NotFound,
    /// The environment could not be opened, or a transaction could not
    /// begin or commit.
    Unavailable,
}

/// The outcome of an insert-if-absent.
#[derive(Debug, PartialEq, Eq)]
pub enum PutOutcome {
    /// The key was absent; `key -> id` is now stored.
    Inserted,
    /// The key was already bound; the existing id, which stays.
    AlreadyExists(String),
}

/// Relies on lmdb's `Environment::new`, `EnvironmentBuilder::set_max_dbs`
/// and `EnvironmentBuilder::open`: opens or creates the environment in
/// the given directory, sized for `max_dbs` named sub-databases.  Nothing
/// is assumed of the contents found on disk.
#[verifier::external_body]
fn env_open(path: &str, max_dbs: u32) -> (r: Result<lmdb::Environment, StoreError>) {
    match lmdb::Environment::new().set_max_dbs(max_dbs).open(Path::new(path)) {
        Ok(env) => Ok(env),
        Err(_) => Err(StoreError::Unavailable),
    }
}

/// Relies on lmdb's `Environment::create_db`: idempotently creates or
/// opens a named sub-database, claiming one of the environment's fixed
/// number of slots.  An empty sub-database holds no entries, so the
/// store's contents are the same either way.  `create_db` builds a C
/// string of the name and panics on an interior NUL byte; the `requires`
/// excludes that.
#[verifier::external_body]
fn raw_create_db(env: &mut lmdb::Environment, db_name: &str) -> (r: Result<(), StoreError>)
    requires
        !contains_nul(db_name@),
    ensures
        env_dbs(*final(env)) == env_dbs(*old(env)),
{
    match env.create_db(Some(db_name), lmdb::DatabaseFlags::empty()) {
        Ok(_) => Ok(()),
        Err(_) => Err(StoreError::Unavailable),
    }
}

/// Relies on lmdb's `Environment::open_db`, `Environment::begin_ro_txn`
/// and `Transaction::get`: one read-only transaction, ended when it is
/// dropped, performing a point lookup.  `get` returns the value bound to
/// the key, and `NotFound` exactly when the key (or the whole
/// sub-database) is absent; values written by this crate are UTF-8.
/// `open_db` builds a C string of the name and panics on an interior NUL
/// byte; the `requires` excludes that.
#[verifier::external_body]
fn raw_get(env: &lmdb::Environment, db_name: &str, key: &Vec<u8>) -> (r: Result<
    String,
    StoreError,
>)
    requires
        !contains_nul(db_name@),
    ensures
        match r {
            Ok(v) => db_entries(env_dbs(*env), db_name@).contains_key(key@) && db_entries(
                env_dbs(*env),
                db_name@,
            )[key@] == v@,
            Err(StoreError::NotFound) => !db_entries(env_dbs(*env), db_name@).contains_key(key@),
            Err(StoreError::Unavailable) => true,
        },
{
    let db = match env.open_db(Some(db_name)) {
        Ok(d) => d,
        Err(lmdb::Error::NotFound) => return Err(StoreError::NotFound),
        Err(_) => return Err(StoreError::Unavailable),
    };
    let tx = env.begin_ro_txn().map_err(|_| StoreError::Unavailable)?;
    match tx.get(db, key) {
        Ok(v) => Ok(String::from_utf8_lossy(v).into_owned()),
        Err(lmdb::Error::NotFound) => Err(StoreError::NotFound),
        Err(_) => Err(StoreError::Unavailable),
    }
}

/// Relies on lmdb's `Environment::create_db`, `Environment::begin_rw_txn`,
/// `RwTransaction::put` with the `NO_OVERWRITE` flag and
/// `Transaction::commit`: one read-write transaction that creates the
/// sub-database if needed and stores `key -> id` there, unless the key
/// is already bound, in which case `put` reports `KeyExist` and stores
/// nothing.  The presence check and the write share that one
/// transaction, so racing writers on one key serialize and exactly one
/// wins.  An uncommitted transaction is aborted when dropped, so on
/// failure the contents are as they were.  `create_db` builds a C string
/// of the name and panics on an interior NUL byte; the `requires`
/// excludes that.
#[verifier::external_body]
fn raw_insert_if_absent(
    env: &mut lmdb::Environment,
    db_name: &str,
    key: &Vec<u8>,
    id: &str,
) -> (r: Result<bool, StoreError>)
    requires
        !contains_nul(db_name@),
    ensures
        match r {
            Ok(true) => !db_entries(env_dbs(*old(env)), db_name@).contains_key(key@) && env_dbs(
                *final(env),
            ) == env_dbs(*old(env)).insert(
                db_name@,
                db_entries(env_dbs(*old(env)), db_name@).insert(key@, id@),
            ),
            Ok(false) => db_entries(env_dbs(*old(env)), db_name@).contains_key(key@) && env_dbs(
                *final(env),
            ) == env_dbs(*old(env)),
            Err(_) => env_dbs(*final(env)) == env_dbs(*old(env)),
        },
{
    let db = env.create_db(Some(db_name), lmdb::DatabaseFlags::empty()).map_err(
        |_| StoreError::Unavailable,
    )?;
    let mut tx = env.begin_rw_txn().map_err(|_| StoreError::Unavailable)?;
    match tx.put(db, key, &id, lmdb::WriteFlags::NO_OVERWRITE) {
        Err(lmdb::Error::KeyExist) => return Ok(false),
        other => other.map_err(|_| StoreError::Unavailable)?,
    };
    tx.commit().map_err(|_| StoreError::Unavailable)?;
    Ok(true)
}

/// Relies on lmdb's `Environment::open_db`, `Environment::begin_ro_txn`,
/// `Transaction::open_ro_cursor` and `Cursor::iter_start`: one read-only
/// transaction, ended when it is dropped, enumerating every
/// `key -> value` pair of one sub-database.
/// The cursor yields each stored key exactly once — this takes the
/// sub-database to be a plain one, without duplicate-keys support
/// (`DUP_SORT`); this crate creates every sub-database with empty flags,
/// but a pre-existing environment could hold one that differs.
/// `open_db` reports `NotFound` exactly when the sub-database was never
/// created, and such a sub-database holds nothing.  `open_db` builds a C
/// string of the name and panics on an interior NUL byte; the `requires`
/// excludes that.
#[verifier::external_body]
fn raw_entries(env: &lmdb::Environment, db_name: &str) -> (r: Result<
    Vec<(Vec<u8>, String)>,
    StoreError,
>)
    requires
        !contains_nul(db_name@),
    ensures
        match r {
            Ok(v) => {
                &&& forall|i: int|
                    #![trigger v@[i]]
                    0 <= i < v@.len() ==> db_entries(env_dbs(*env), db_name@).contains_key(v@[i].0@)
                        && db_entries(env_dbs(*env), db_name@)[v@[i].0@] == v@[i].1@
                &&& forall|i: int, j: int| 0 <= i < j < v@.len() ==> v@[i].0@ != v@[j].0@
                &&& forall|k: Seq<u8>|
                    #![trigger db_entries(env_dbs(*env), db_name@).contains_key(k)]
                    db_entries(env_dbs(*env), db_name@).contains_key(k) ==> exists|i: int|
                        0 <= i < v@.len() && #[trigger] v@[i].0@ == k
            },
            Err(StoreError::NotFound) => forall|k: Seq<u8>|
                !db_entries(env_dbs(*env), db_name@).contains_key(k),
            Err(StoreError::Unavailable) => true,
        },
{
    let db = match env.open_db(Some(db_name)) {
        Ok(d) => d,
        Err(lmdb::Error::NotFound) => return Err(StoreError::NotFound),
        Err(_) => return Err(StoreError::Unavailable),
    };
    let tx = env.begin_ro_txn().map_err(|_| StoreError::Unavailable)?;
    let mut cur = tx.open_ro_cursor(db).map_err(|_| StoreError::Unavailable)?;
    let mut out = Vec::new();
    for item in cur.iter_start() {
        let (k, v) = item.map_err(|_| StoreError::Unavailable)?;
        out.push((k.to_vec(), String::from_utf8_lossy(v).into_owned()));
    }
    Ok(out)
}

/// The index store: a transactional environment of sub-databases, each
/// mapping composite key bytes to one id string.
pub struct Store {
    env: lmdb::Environment,
}

impl View for Store {
    type V = Map<Seq<char>, Map<Seq<u8>, Seq<char>>>;

    closed spec fn view(&self) -> Map<Seq<char>, Map<Seq<u8>, Seq<char>>> {
        env_dbs(self.env)
    }
}

impl Store {
    /// Open (or create) the store in the given directory, sized for at
    /// most `max_dbs` sub-databases; the capacity is fixed until the
    /// store is reopened.  Contents already on disk are kept: nothing is
    /// known of a freshly opened store's entries.
    pub fn open(path: &str, max_dbs: u32) -> (r: Result<Store, StoreError>) {
        match env_open(path, max_dbs) {
            Ok(env) => Ok(Store { env }),
            Err(e) => Err(e),
        }
    }

    /// Idempotently create or open one named sub-database, claiming one
    /// of the environment's fixed number of slots; the stored entries
    /// are unchanged.  Writes create their sub-database on demand, so
    /// this is only for claiming capacity up front.  A name holding a
    /// NUL character is refused.
    pub fn open_sub_db(&mut self, name: &str) -> (r: Result<(), StoreError>)
        ensures
            final(self)@ == old(self)@,
            contains_nul(name@) ==> r == Err::<(), StoreError>(StoreError::Unavailable),
    {
        if has_nul(name) {
            return Err(StoreError::Unavailable);
        }
        raw_create_db(&mut self.env, name)
    }

    /// Point lookup in one sub-database: the stored id, or `NotFound`
    /// exactly when the key is absent.  A name holding a NUL character
    /// is refused.
    pub fn get(&self, db_name: &str, key: &Vec<u8>) -> (r: Result<String, StoreError>)
        ensures
            contains_nul(db_name@) ==> r == Err::<String, StoreError>(StoreError::Unavailable),
            match r {
                Ok(v) => db_entries(self@, db_name@).contains_key(key@) && db_entries(
                    self@,
                    db_name@,
                )[key@] == v@,
                Err(StoreError::NotFound) => !db_entries(self@, db_name@).contains_key(key@),
                Err(StoreError::Unavailable) => true,
            },
    {
        if has_nul(db_name) {
            return Err(StoreError::Unavailable);
        }
        raw_get(&self.env, db_name, key)
    }

    /// Insert `key -> id` into one sub-database unless the key is
    /// already bound; an existing binding always wins and is reported.
    /// The presence check and the insert run in one read-write
    /// transaction, so of racing writers on one key exactly one inserts;
    /// the existing id is then read back for the report.  On failure the
    /// store is unchanged.  A name holding a NUL character is refused.
    pub fn put_if_absent(&mut self, db_name: &str, key: &Vec<u8>, id: &str) -> (r: Result<
        PutOutcome,
        StoreError,
    >)
        ensures
            contains_nul(db_name@) ==> r == Err::<PutOutcome, StoreError>(StoreError::Unavailable),
            match r {
                Ok(PutOutcome::Inserted) => !db_entries(old(self)@, db_name@).contains_key(key@)
                    && final(self)@ == old(self)@.insert(
                    db_name@,
                    db_entries(old(self)@, db_name@).insert(key@, id@),
                ),
                Ok(PutOutcome::AlreadyExists(e)) => db_entries(old(self)@, db_name@).contains_key(
                    key@,
                ) && e@ == db_entries(old(self)@, db_name@)[key@] && final(self)@ == old(self)@,
                Err(_) => final(self)@ == old(self)@,
            },
    {
        if has_nul(db_name) {
            return Err(StoreError::Unavailable);
        }
        match raw_insert_if_absent(&mut self.env, db_name, key, id) {
            Ok(true) => Ok(PutOutcome::Inserted),
            Ok(false) => match raw_get(&self.env, db_name, key) {
                Ok(existing) => Ok(PutOutcome::AlreadyExists(existing)),
                Err(_) => Err(StoreError::Unavailable),
            },
            Err(e) => Err(e),
        }
    }

    /// Enumerate every entry of one sub-database, for observability: the
    /// result lists exactly the stored `key -> id` pairs, each key once.
    /// A sub-database that was never written enumerates as absent, and a
    /// name holding a NUL character is refused.
    pub fn entries(&self, db_name: &str) -> (r: Result<Vec<(Vec<u8>, String)>, StoreError>)
        ensures
            contains_nul(db_name@) ==> r == Err::<Vec<(Vec<u8>, String)>, StoreError>(
                StoreError::Unavailable,
            ),
            match r {
                Ok(v) => {
                    &&& forall|i: int|
                        #![trigger v@[i]]
                        0 <= i < v@.len() ==> db_entries(self@, db_name@).contains_key(v@[i].0@)
                            && db_entries(self@, db_name@)[v@[i].0@] == v@[i].1@
                    &&& forall|i: int, j: int| 0 <= i < j < v@.len() ==> v@[i].0@ != v@[j].0@
                    &&& forall|k: Seq<u8>|
                        #![trigger db_entries(self@, db_name@).contains_key(k)]
                        db_entries(self@, db_name@).contains_key(k) ==> exists|i: int|
                            0 <= i < v@.len() && #[trigger] v@[i].0@ == k
                },
                Err(StoreError::NotFound) => forall|k: Seq<u8>|
                    !db_entries(self@, db_name@).contains_key(k),
                Err(StoreError::Unavailable) => true,
            },
    {
        if has_nul(db_name) {
            return Err(StoreError::Unavailable);
        }
        raw_entries(&self.env, db_name)
    }
}

} // verus!
