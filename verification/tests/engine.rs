use lakedb::db::{Db, IndexOutcome};
use lakedb::record::SimpleRecord;
use lakedb::schema::{Index, Options, Schema, Schemas};
use lakedb::store::Store;

fn record(noun: &str, declared: &[&str], values: &[(&str, &str)]) -> SimpleRecord {
    SimpleRecord {
        noun: noun.to_string(),
        declared: declared.iter().map(|s| s.to_string()).collect(),
        values: values.iter().map(|(k, v)| (k.to_string(), v.to_string())).collect(),
    }
}

fn index(name: &str, fields: &[&str], lowercase: bool) -> Index {
    Index {
        name: name.to_string(),
        fields: fields.iter().map(|s| s.to_string()).collect(),
        options: Options { multi: false, unique: false, lowercase },
    }
}

fn location_catalog() -> Schemas {
    Schemas::from_entries(vec![(
        "location".to_string(),
        Schema { indexes: vec![index("byName", &["name"], true)] },
    )])
}

fn open_db(schemas: Schemas, dir: &tempfile::TempDir) -> Db {
    let max_dbs = (schemas.len() + 1) as u32;
    let store = Store::open(dir.path().to_str().unwrap(), max_dbs).unwrap();
    Db::new(store, schemas, "jsonlake".to_string())
}

#[test]
fn no_schema_writes_nothing() {
    let dir = tempfile::tempdir().unwrap();
    let mut db = open_db(location_catalog(), &dir);
    let rec = record("species", &["id", "name"], &[("id", "sp1"), ("name", "Otter")]);
    let report = db.put(&rec).unwrap();
    assert_eq!(report.id, "sp1");
    assert!(report.outcomes.is_empty());
    assert!(db.dump("species.byName").is_err());
}

#[test]
fn scenario_location_by_name() {
    let dir = tempfile::tempdir().unwrap();
    let mut db = open_db(location_catalog(), &dir);

    let first = record("location", &["id", "name"], &[("id", "abc123"), ("name", "Paris")]);
    let report = db.put(&first).unwrap();
    assert_eq!(report.id, "abc123");
    assert_eq!(report.outcomes.len(), 1);
    assert_eq!(
        report.outcomes[0],
        IndexOutcome::Written { index: "byName".to_string(), key: b"paris".to_vec() }
    );
    let entries = db.dump("location.byName").unwrap();
    assert_eq!(entries, vec![(b"paris".to_vec(), "abc123".to_string())]);

    let second = record("location", &["id", "name"], &[("id", "xyz789"), ("name", "PARIS")]);
    let report = db.put(&second).unwrap();
    assert_eq!(report.id, "xyz789");
    assert_eq!(
        report.outcomes[0],
        IndexOutcome::Exists {
            index: "byName".to_string(),
            key: b"paris".to_vec(),
            existing: "abc123".to_string()
        }
    );
    let entries = db.dump("location.byName").unwrap();
    assert_eq!(entries, vec![(b"paris".to_vec(), "abc123".to_string())]);
}

#[test]
fn key_joins_fields_in_listed_order() {
    let dir = tempfile::tempdir().unwrap();
    let schemas = Schemas::from_entries(vec![(
        "pair".to_string(),
        Schema {
            indexes: vec![index("fwd", &["a", "b"], false), index("rev", &["b", "a"], false)],
        },
    )]);
    let mut db = open_db(schemas, &dir);
    let rec = record("pair", &["id", "a", "b"], &[("id", "p1"), ("a", "left"), ("b", "Right")]);
    let report = db.put(&rec).unwrap();
    assert_eq!(report.outcomes.len(), 2);
    assert_eq!(
        db.dump("pair.fwd").unwrap(),
        vec![(b"left:Right".to_vec(), "p1".to_string())]
    );
    assert_eq!(
        db.dump("pair.rev").unwrap(),
        vec![(b"Right:left".to_vec(), "p1".to_string())]
    );
}

#[test]
fn put_twice_is_idempotent() {
    let dir = tempfile::tempdir().unwrap();
    let mut db = open_db(location_catalog(), &dir);
    let rec = record("location", &["id", "name"], &[("id", "abc123"), ("name", "Paris")]);
    db.put(&rec).unwrap();
    let report = db.put(&rec).unwrap();
    assert!(matches!(report.outcomes[0], IndexOutcome::Exists { .. }));
    let entries = db.dump("location.byName").unwrap();
    assert_eq!(entries, vec![(b"paris".to_vec(), "abc123".to_string())]);
}

#[test]
fn colliding_key_keeps_first_id() {
    let dir = tempfile::tempdir().unwrap();
    let mut db = open_db(location_catalog(), &dir);
    let first = record("location", &["id", "name"], &[("id", "first"), ("name", "Lyon")]);
    let second = record("location", &["id", "name"], &[("id", "second"), ("name", "LYON")]);
    db.put(&first).unwrap();
    db.put(&second).unwrap();
    assert_eq!(db.get("location", "byName", "lyon".to_string()).unwrap(), "first");
}

#[test]
fn get_after_put_returns_id() {
    let dir = tempfile::tempdir().unwrap();
    let mut db = open_db(location_catalog(), &dir);
    let rec = record("location", &["id", "name"], &[("id", "abc123"), ("name", "Paris")]);
    db.put(&rec).unwrap();
    assert_eq!(db.get("location", "byName", "paris".to_string()).unwrap(), "abc123");
}

#[test]
fn get_of_key_never_written_is_not_found() {
    let dir = tempfile::tempdir().unwrap();
    let mut db = open_db(location_catalog(), &dir);
    let rec = record("location", &["id", "name"], &[("id", "abc123"), ("name", "Paris")]);
    db.put(&rec).unwrap();
    assert!(db.get("location", "byName", "london".to_string()).is_err());
    assert!(db.get("nowhere", "byName", "paris".to_string()).is_err());
}

#[test]
fn missing_field_value_skips_only_that_index() {
    let dir = tempfile::tempdir().unwrap();
    let schemas = Schemas::from_entries(vec![(
        "location".to_string(),
        Schema {
            indexes: vec![index("byName", &["name"], true), index("byCode", &["code"], false)],
        },
    )]);
    let mut db = open_db(schemas, &dir);
    // `code` is declared on the type but holds no value on this instance:
    // that index alone fails; `byName` is still written.
    let rec = record("location", &["id", "name", "code"], &[("id", "abc123"), ("name", "Paris")]);
    let report = db.put(&rec).unwrap();
    assert_eq!(report.outcomes.len(), 2);
    assert!(matches!(report.outcomes[0], IndexOutcome::Written { .. }));
    assert_eq!(
        report.outcomes[1],
        IndexOutcome::KeyFailed { index: "byCode".to_string(), field: "code".to_string() }
    );
    assert_eq!(
        db.dump("location.byName").unwrap(),
        vec![(b"paris".to_vec(), "abc123".to_string())]
    );
    assert!(db.dump("location.byCode").is_err());
}

#[test]
fn unknown_field_degrades_the_key() {
    // A field the record's type does not declare at all contributes
    // nothing to the key; the index write still proceeds with the
    // remaining fields.  This deliberate policy is a known weak point:
    // two records differing only in unknown fields collide on the
    // degraded key.
    let dir = tempfile::tempdir().unwrap();
    let schemas = Schemas::from_entries(vec![(
        "location".to_string(),
        Schema { indexes: vec![index("byBoth", &["name", "region"], false)] },
    )]);
    let mut db = open_db(schemas, &dir);
    let rec = record("location", &["id", "name"], &[("id", "abc123"), ("name", "Paris")]);
    let report = db.put(&rec).unwrap();
    assert!(matches!(report.outcomes[0], IndexOutcome::Written { .. }));
    assert_eq!(
        db.dump("location.byBoth").unwrap(),
        vec![(b"Paris".to_vec(), "abc123".to_string())]
    );
}

#[test]
fn value_containing_separator_is_ambiguous() {
    // The `:` join has no escaping: a value holding `:` derives the same
    // key as two shorter values would.  A documented limitation.
    let dir = tempfile::tempdir().unwrap();
    let schemas = Schemas::from_entries(vec![(
        "pair".to_string(),
        Schema { indexes: vec![index("fwd", &["a", "b"], false)] },
    )]);
    let mut db = open_db(schemas, &dir);
    let tricky = record("pair", &["id", "a", "b"], &[("id", "p1"), ("a", "x:y"), ("b", "z")]);
    db.put(&tricky).unwrap();
    let plain = record("pair", &["id", "a", "b"], &[("id", "p2"), ("a", "x"), ("b", "y:z")]);
    let report = db.put(&plain).unwrap();
    assert_eq!(
        report.outcomes[0],
        IndexOutcome::Exists {
            index: "fwd".to_string(),
            key: b"x:y:z".to_vec(),
            existing: "p1".to_string()
        }
    );
}

#[test]
fn entries_survive_reopening_the_store() {
    let dir = tempfile::tempdir().unwrap();
    {
        let mut db = open_db(location_catalog(), &dir);
        let rec = record("location", &["id", "name"], &[("id", "abc123"), ("name", "Paris")]);
        db.put(&rec).unwrap();
    }
    let db = open_db(location_catalog(), &dir);
    assert_eq!(db.get("location", "byName", "paris".to_string()).unwrap(), "abc123");
}
