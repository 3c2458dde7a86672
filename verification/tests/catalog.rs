use lakedb::db::Db;
use lakedb::record::{FieldAccessor, FieldLookup, SimpleRecord};
use lakedb::schema::{Index, Options, Schema, Schemas};
use lakedb::store::{PutOutcome, Store, StoreError};

fn index(name: &str, fields: &[&str]) -> Index {
    Index {
        name: name.to_string(),
        fields: fields.iter().map(|s| s.to_string()).collect(),
        options: Options { multi: false, unique: false, lowercase: false },
    }
}

fn catalog() -> Schemas {
    Schemas::from_entries(vec![
        ("location".to_string(), Schema { indexes: vec![index("byName", &["name"])] }),
        ("species".to_string(), Schema { indexes: vec![] }),
    ])
}

#[test]
fn len_counts_distinct_nouns() {
    assert_eq!(catalog().len(), 2);
}

#[test]
fn get_finds_known_nouns_only() {
    let c = catalog();
    assert!(c.get("location").is_some());
    assert_eq!(c.get("location").unwrap().indexes.len(), 1);
    assert!(c.get("castle").is_none());
}

#[test]
fn db_name_joins_noun_and_index() {
    let c = catalog();
    assert_eq!(c.db_name("location", "byName"), "location.byName");
}

#[test]
fn db_name_of_unknown_noun_is_the_sentinel() {
    let c = catalog();
    assert_eq!(c.db_name("castle", "byName"), "error");
}

#[test]
fn repeated_noun_keeps_the_first_entry() {
    let c = Schemas::from_entries(vec![
        ("location".to_string(), Schema { indexes: vec![index("byName", &["name"])] }),
        ("location".to_string(), Schema { indexes: vec![] }),
    ]);
    assert_eq!(c.len(), 1);
    assert_eq!(c.get("location").unwrap().indexes.len(), 1);
}

#[test]
fn field_lookup_tells_the_three_outcomes_apart() {
    let rec = SimpleRecord {
        noun: "location".to_string(),
        declared: vec!["id".to_string(), "name".to_string(), "code".to_string()],
        values: vec![("id".to_string(), "l1".to_string()), ("name".to_string(), "Nice".to_string())],
    };
    assert_eq!(rec.noun_name(), "location");
    assert_eq!(rec.lookup_field("name"), FieldLookup::Value("Nice".to_string()));
    assert_eq!(rec.lookup_field("code"), FieldLookup::NoValue);
    assert_eq!(rec.lookup_field("region"), FieldLookup::UnknownField);
}

#[test]
fn filename_joins_directory_and_id() {
    let dir = tempfile::tempdir().unwrap();
    let store = Store::open(dir.path().to_str().unwrap(), 2).unwrap();
    let db = Db::new(store, catalog(), "jsonlake".to_string());
    assert_eq!(db.filename_from_id("abc123"), "jsonlake/abc123");
}

#[test]
fn store_insert_then_report_existing() {
    let dir = tempfile::tempdir().unwrap();
    let mut store = Store::open(dir.path().to_str().unwrap(), 2).unwrap();
    let key = b"paris".to_vec();
    let first = store.put_if_absent("location.byName", &key, "abc123").unwrap();
    assert_eq!(first, PutOutcome::Inserted);
    let second = store.put_if_absent("location.byName", &key, "xyz789").unwrap();
    assert_eq!(second, PutOutcome::AlreadyExists("abc123".to_string()));
    assert_eq!(store.get("location.byName", &key).unwrap(), "abc123");
}

#[test]
fn store_get_of_absent_key_is_not_found() {
    let dir = tempfile::tempdir().unwrap();
    let store = Store::open(dir.path().to_str().unwrap(), 2).unwrap();
    let key = b"paris".to_vec();
    assert_eq!(store.get("location.byName", &key), Err(StoreError::NotFound));
}

#[test]
fn open_sub_db_is_idempotent_and_leaves_entries_alone() {
    let dir = tempfile::tempdir().unwrap();
    let mut store = Store::open(dir.path().to_str().unwrap(), 2).unwrap();
    store.open_sub_db("pair.fwd").unwrap();
    store.open_sub_db("pair.fwd").unwrap();
    assert_eq!(store.entries("pair.fwd").unwrap(), vec![]);
}

#[test]
fn exhausted_sub_db_capacity_is_unavailable() {
    let dir = tempfile::tempdir().unwrap();
    let mut store = Store::open(dir.path().to_str().unwrap(), 1).unwrap();
    let key = b"k".to_vec();
    store.put_if_absent("one", &key, "a").unwrap();
    assert_eq!(store.put_if_absent("two", &key, "b"), Err(StoreError::Unavailable));
}

#[test]
fn nul_in_a_sub_db_name_is_refused() {
    let dir = tempfile::tempdir().unwrap();
    let mut store = Store::open(dir.path().to_str().unwrap(), 2).unwrap();
    let key = b"k".to_vec();
    assert_eq!(store.put_if_absent("a\0b", &key, "p1"), Err(StoreError::Unavailable));
    assert_eq!(store.get("a\0b", &key), Err(StoreError::Unavailable));
    assert_eq!(store.entries("a\0b"), Err(StoreError::Unavailable));
    assert_eq!(store.open_sub_db("a\0b"), Err(StoreError::Unavailable));
}

#[test]
fn store_entries_lists_every_pair_once() {
    let dir = tempfile::tempdir().unwrap();
    let mut store = Store::open(dir.path().to_str().unwrap(), 2).unwrap();
    store.put_if_absent("pair.fwd", &b"a".to_vec(), "p1").unwrap();
    store.put_if_absent("pair.fwd", &b"b".to_vec(), "p2").unwrap();
    store.put_if_absent("pair.fwd", &b"a".to_vec(), "p3").unwrap();
    let mut entries = store.entries("pair.fwd").unwrap();
    entries.sort();
    assert_eq!(
        entries,
        vec![
            (b"a".to_vec(), "p1".to_string()),
            (b"b".to_vec(), "p2".to_string()),
        ]
    );
}
