use redb::backends::InMemoryBackend;
use redb::{Database, MultimapTableDefinition, ReadableDatabase, TableDefinition};
use wasmtime::component::{Resource, ResourceTable};
use wasmtime_wasi_keyvalue_redb::{
    Bucket, BuilderError, Error, WasiKeyValueRedb, WasiKeyValueRedbCtx, WasiKeyValueRedbCtxBuilder,
};

// A handle is used up by the request that it is given to, so each request opens one.

fn make_ctx() -> (WasiKeyValueRedbCtx, tempfile::TempDir) {
    let dir = tempfile::tempdir().unwrap();
    let ctx = WasiKeyValueRedbCtxBuilder::new()
        .database_path(&dir.path().join("test.redb"))
        .unwrap()
        .build()
        .unwrap();
    (ctx, dir)
}

fn bucket(kv: &mut WasiKeyValueRedb<'_>, name: &str) -> Resource<Bucket> {
    kv.open(name.to_string()).unwrap()
}

fn in_memory() -> Database {
    Database::builder()
        .create_with_backend(InMemoryBackend::new())
        .unwrap()
}

fn message(error: Error) -> String {
    match error {
        Error::Other(text) => text,
        other => panic!("unexpected error {:?}", other),
    }
}

#[test]
fn set_get_delete() {
    let (mut ctx, _dir) = make_ctx();
    let mut table = ResourceTable::new();
    let mut kv = WasiKeyValueRedb::new(&mut ctx, &mut table);

    let b = bucket(&mut kv, "");
    kv.set(b, "hello".to_string(), b"world".to_vec()).unwrap();
    let b = bucket(&mut kv, "");
    assert_eq!(kv.get(b, "hello".to_string()).unwrap(), Some(b"world".to_vec()));
    let b = bucket(&mut kv, "");
    kv.delete(b, "hello".to_string()).unwrap();
    let b = bucket(&mut kv, "");
    assert_eq!(kv.get(b, "hello".to_string()).unwrap(), None);
}

#[test]
fn key_exists() {
    let (mut ctx, _dir) = make_ctx();
    let mut table = ResourceTable::new();
    let mut kv = WasiKeyValueRedb::new(&mut ctx, &mut table);

    let b = bucket(&mut kv, "bucket");
    assert!(!kv.key_exists(b, "k".to_string()).unwrap());
    let b = bucket(&mut kv, "bucket");
    kv.set(b, "k".to_string(), b"v".to_vec()).unwrap();
    let b = bucket(&mut kv, "bucket");
    assert!(kv.key_exists(b, "k".to_string()).unwrap());
}

#[test]
fn list_keys() {
    let (mut ctx, _dir) = make_ctx();
    let mut table = ResourceTable::new();
    let mut kv = WasiKeyValueRedb::new(&mut ctx, &mut table);

    let b = bucket(&mut kv, "listing");
    kv.set(b, "a".to_string(), b"1".to_vec()).unwrap();
    let b = bucket(&mut kv, "listing");
    kv.set(b, "b".to_string(), b"2".to_vec()).unwrap();
    let b = bucket(&mut kv, "listing");
    kv.set(b, "c".to_string(), b"3".to_vec()).unwrap();

    let b = bucket(&mut kv, "listing");
    let resp = kv.list_keys(b, None).unwrap();
    let mut keys = resp.keys;
    keys.sort();
    assert_eq!(keys, vec!["a", "b", "c"]);
}

#[test]
fn buckets_are_isolated() {
    let (mut ctx, _dir) = make_ctx();
    let mut table = ResourceTable::new();
    let mut kv = WasiKeyValueRedb::new(&mut ctx, &mut table);

    let b = bucket(&mut kv, "alpha");
    kv.set(b, "key".to_string(), b"from-alpha".to_vec()).unwrap();

    let b = bucket(&mut kv, "beta");
    assert_eq!(kv.get(b, "key".to_string()).unwrap(), None);
    let b = bucket(&mut kv, "beta");
    assert!(kv.list_keys(b, None).unwrap().keys.is_empty());
    let b = bucket(&mut kv, "alpha");
    assert_eq!(kv.get(b, "key".to_string()).unwrap(), Some(b"from-alpha".to_vec()));
}

#[test]
fn increment() {
    let (mut ctx, _dir) = make_ctx();
    let mut table = ResourceTable::new();
    let mut kv = WasiKeyValueRedb::new(&mut ctx, &mut table);

    let b = bucket(&mut kv, "counters");
    assert_eq!(kv.increment(b, "hits".to_string(), 1).unwrap(), 1);
    let b = bucket(&mut kv, "counters");
    assert_eq!(kv.increment(b, "hits".to_string(), 4).unwrap(), 5);
    let b = bucket(&mut kv, "counters");
    assert_eq!(kv.increment(b, "hits".to_string(), 10).unwrap(), 15);
}

#[test]
fn batch_ops() {
    let (mut ctx, _dir) = make_ctx();
    let mut table = ResourceTable::new();
    let mut kv = WasiKeyValueRedb::new(&mut ctx, &mut table);

    let b = bucket(&mut kv, "batch");
    kv.set_many(
        b,
        vec![
            ("x".to_string(), b"1".to_vec()),
            ("y".to_string(), b"2".to_vec()),
            ("z".to_string(), b"3".to_vec()),
        ],
    )
    .unwrap();

    let b = bucket(&mut kv, "batch");
    let results = kv
        .get_many(
            b,
            vec!["x".to_string(), "missing".to_string(), "z".to_string()],
        )
        .unwrap();
    assert_eq!(results[0], Some(("x".to_string(), b"1".to_vec())));
    assert_eq!(results[1], None);
    assert_eq!(results[2], Some(("z".to_string(), b"3".to_vec())));

    let b = bucket(&mut kv, "batch");
    kv.delete_many(b, vec!["x".to_string(), "y".to_string()]).unwrap();
    let b = bucket(&mut kv, "batch");
    let resp = kv.list_keys(b, None).unwrap();
    assert_eq!(resp.keys, vec!["z"]);
}

#[test]
fn persists_across_sessions() {
    let dir = tempfile::tempdir().unwrap();
    let db_path = dir.path().join("persist.redb");

    {
        let mut ctx = WasiKeyValueRedbCtxBuilder::new()
            .database_path(&db_path)
            .unwrap()
            .build()
            .unwrap();
        let mut table = ResourceTable::new();
        let mut kv = WasiKeyValueRedb::new(&mut ctx, &mut table);
        let b = bucket(&mut kv, "data");
        kv.set(b, "k".to_string(), b"still here".to_vec()).unwrap();
    }

    {
        let mut ctx = WasiKeyValueRedbCtxBuilder::new()
            .database_path(&db_path)
            .unwrap()
            .build()
            .unwrap();
        let mut table = ResourceTable::new();
        let mut kv = WasiKeyValueRedb::new(&mut ctx, &mut table);
        let b = bucket(&mut kv, "data");
        assert_eq!(
            kv.get(b, "k".to_string()).unwrap(),
            Some(b"still here".to_vec())
        );
    }
}

#[test]
fn builder_without_database_is_refused() {
    let refused = WasiKeyValueRedbCtxBuilder::new().build().err().unwrap();
    assert!(matches!(refused, BuilderError::NoDatabase));
    assert_eq!(
        refused.message(),
        "no database configured; call database_path() or database()"
    );
    assert!(WasiKeyValueRedbCtxBuilder::default().build().is_err());
}

#[test]
fn database_that_cannot_be_opened_is_reported() {
    let dir = tempfile::tempdir().unwrap();
    let opened = WasiKeyValueRedbCtxBuilder::new().database_path(&dir.path().to_path_buf());
    assert!(matches!(opened.err(), Some(BuilderError::Database(_))));

    let path = dir.path().join("once.redb");
    let first = WasiKeyValueRedbCtxBuilder::new().database_path(&path).unwrap();
    let second = WasiKeyValueRedbCtxBuilder::new().database_path(&path).err().unwrap();
    assert!(matches!(
        second,
        BuilderError::Database(redb::DatabaseError::DatabaseAlreadyOpen)
    ));
    assert_eq!(second.message(), "Database already open. Cannot acquire lock.");
    assert!(first.build().is_ok());
}

#[test]
fn opened_database_passes_on_success_and_failure() {
    let builder = WasiKeyValueRedbCtxBuilder::new()
        .opened_database(Ok(in_memory()))
        .unwrap();
    assert!(builder.build().is_ok());
    let refused = WasiKeyValueRedbCtxBuilder::new()
        .opened_database(Err(redb::DatabaseError::UpgradeRequired(1)))
        .err()
        .unwrap();
    assert!(matches!(
        refused,
        BuilderError::Database(redb::DatabaseError::UpgradeRequired(1))
    ));
    assert_eq!(
        refused.message(),
        redb::DatabaseError::UpgradeRequired(1).to_string()
    );
}

#[test]
fn table_of_another_type_is_reported() {
    const OTHER: TableDefinition<u64, u64> = TableDefinition::new("wasi_kv");
    let db = in_memory();
    let txn = db.begin_write().unwrap();
    txn.open_table(OTHER).unwrap();
    txn.commit().unwrap();
    let refused = WasiKeyValueRedbCtxBuilder::new().database(db).build().err().unwrap();
    assert!(matches!(
        refused,
        BuilderError::Table(redb::TableError::TableTypeMismatch { .. })
    ));
    assert_eq!(refused.message(), "wasi_kv is of type Table<u64, u64>");
}

#[test]
fn multimap_table_is_reported() {
    const OTHER: MultimapTableDefinition<&str, &[u8]> = MultimapTableDefinition::new("wasi_kv");
    let db = in_memory();
    let txn = db.begin_write().unwrap();
    txn.open_multimap_table(OTHER).unwrap();
    txn.commit().unwrap();
    let refused = WasiKeyValueRedbCtxBuilder::new().database(db).build().err().unwrap();
    assert!(matches!(
        refused,
        BuilderError::Table(redb::TableError::TableIsMultimap(_))
    ));
    assert_eq!(refused.message(), "wasi_kv is a multimap table");
}

#[test]
fn build_keeps_rows_under_their_encoded_names() {
    const ROWS: TableDefinition<&str, &[u8]> = TableDefinition::new("wasi_kv");
    let db = in_memory();
    let txn = db.begin_write().unwrap();
    {
        let mut rows = txn.open_table(ROWS).unwrap();
        rows.insert("logs\0k", b"v".as_slice()).unwrap();
        rows.insert("default\0k", b"d".as_slice()).unwrap();
    }
    txn.commit().unwrap();
    let mut ctx = WasiKeyValueRedbCtxBuilder::new().database(db).build().unwrap();
    let mut table = ResourceTable::new();
    let mut kv = WasiKeyValueRedb::new(&mut ctx, &mut table);
    let b = bucket(&mut kv, "logs");
    assert_eq!(kv.get(b, "k".to_string()).unwrap(), Some(b"v".to_vec()));
    let b = bucket(&mut kv, "");
    assert_eq!(kv.get(b, "k".to_string()).unwrap(), Some(b"d".to_vec()));
}

#[test]
fn empty_identifier_opens_default() {
    let (mut ctx, _dir) = make_ctx();
    let mut table = ResourceTable::new();
    let mut kv = WasiKeyValueRedb::new(&mut ctx, &mut table);
    let b = bucket(&mut kv, "");
    kv.set(b, "k".to_string(), b"v".to_vec()).unwrap();
    let b = bucket(&mut kv, "default");
    assert_eq!(kv.get(b, "k".to_string()).unwrap(), Some(b"v".to_vec()));
}

#[test]
fn last_value_wins_and_other_keys_stay() {
    let (mut ctx, _dir) = make_ctx();
    let mut table = ResourceTable::new();
    let mut kv = WasiKeyValueRedb::new(&mut ctx, &mut table);
    for (key, value) in [("a", "1"), ("b", "2"), ("a", "3")] {
        let b = bucket(&mut kv, "x");
        kv.set(b, key.to_string(), value.as_bytes().to_vec()).unwrap();
    }
    let b = bucket(&mut kv, "x");
    assert_eq!(kv.get(b, "a".to_string()).unwrap(), Some(b"3".to_vec()));
    let b = bucket(&mut kv, "x");
    assert_eq!(kv.get(b, "b".to_string()).unwrap(), Some(b"2".to_vec()));
    let b = bucket(&mut kv, "x");
    kv.delete(b, "absent".to_string()).unwrap();
    let b = bucket(&mut kv, "x");
    assert_eq!(kv.list_keys(b, None).unwrap().keys, vec!["a", "b"]);
}

#[test]
fn keys_are_listed_in_order_from_the_cursor() {
    let (mut ctx, _dir) = make_ctx();
    let mut table = ResourceTable::new();
    let mut kv = WasiKeyValueRedb::new(&mut ctx, &mut table);
    for key in ["b", "", "ab", "é", "a", "z\0z"] {
        let b = bucket(&mut kv, "bücher");
        kv.set(b, key.to_string(), Vec::new()).unwrap();
    }
    for name in ["büchera", "bücher\u{1}", "büche"] {
        let b = bucket(&mut kv, name);
        kv.set(b, "elsewhere".to_string(), Vec::new()).unwrap();
    }
    let all = vec!["", "a", "ab", "b", "z\0z", "é"];
    for start in 0..8usize {
        let b = bucket(&mut kv, "bücher");
        let page = kv.list_keys(b, Some(start as u64)).unwrap();
        assert_eq!(page.keys, all[start.min(all.len())..].to_vec());
        assert_eq!(page.cursor, None);
    }
    let b = bucket(&mut kv, "bücher");
    assert_eq!(kv.list_keys(b, None).unwrap().keys, all);
    let b = bucket(&mut kv, "bücher");
    assert!(kv.list_keys(b, Some(u64::MAX)).unwrap().keys.is_empty());
}

#[test]
fn names_with_nul_can_overlap() {
    let (mut ctx, _dir) = make_ctx();
    let mut table = ResourceTable::new();
    let mut kv = WasiKeyValueRedb::new(&mut ctx, &mut table);
    let b = bucket(&mut kv, "a");
    kv.set(b, "b\0c".to_string(), b"v".to_vec()).unwrap();
    let b = bucket(&mut kv, "a\0b");
    assert_eq!(kv.get(b, "c".to_string()).unwrap(), Some(b"v".to_vec()));
}

#[test]
fn counters_saturate_and_count_from_zero() {
    let (mut ctx, _dir) = make_ctx();
    let mut table = ResourceTable::new();
    let mut kv = WasiKeyValueRedb::new(&mut ctx, &mut table);
    let b = bucket(&mut kv, "c");
    assert_eq!(kv.increment(b, "n".to_string(), u64::MAX - 1).unwrap(), u64::MAX - 1);
    let b = bucket(&mut kv, "c");
    assert_eq!(kv.increment(b, "n".to_string(), 7).unwrap(), u64::MAX);
    let b = bucket(&mut kv, "c");
    assert_eq!(
        kv.get(b, "n".to_string()).unwrap(),
        Some(b"18446744073709551615".to_vec())
    );
    let b = bucket(&mut kv, "c");
    kv.set(b, "n".to_string(), vec![0xff, 0x31]).unwrap();
    let b = bucket(&mut kv, "c");
    assert_eq!(kv.increment(b, "n".to_string(), 3).unwrap(), 3);
    let b = bucket(&mut kv, "c");
    kv.set(b, "n".to_string(), b"+0041".to_vec()).unwrap();
    let b = bucket(&mut kv, "c");
    assert_eq!(kv.increment(b, "n".to_string(), 1).unwrap(), 42);
    let b = bucket(&mut kv, "c");
    assert_eq!(kv.get(b, "n".to_string()).unwrap(), Some(b"42".to_vec()));
}

#[test]
fn batches_keep_order_and_bucket() {
    let (mut ctx, _dir) = make_ctx();
    let mut table = ResourceTable::new();
    let mut kv = WasiKeyValueRedb::new(&mut ctx, &mut table);
    let b = bucket(&mut kv, "one");
    kv.set_many(
        b,
        vec![
            ("k".to_string(), b"first".to_vec()),
            ("l".to_string(), b"l".to_vec()),
            ("k".to_string(), b"last".to_vec()),
        ],
    )
    .unwrap();
    let b = bucket(&mut kv, "two");
    kv.set_many(b, vec![("k".to_string(), b"two".to_vec())]).unwrap();
    let b = bucket(&mut kv, "one");
    let found = kv
        .get_many(b, vec!["k".to_string(), "l".to_string(), "k".to_string()])
        .unwrap();
    assert_eq!(
        found,
        vec![
            Some(("k".to_string(), b"last".to_vec())),
            Some(("l".to_string(), b"l".to_vec())),
            Some(("k".to_string(), b"last".to_vec())),
        ]
    );
    let b = bucket(&mut kv, "one");
    kv.delete_many(b, vec!["k".to_string(), "absent".to_string()]).unwrap();
    let b = bucket(&mut kv, "one");
    assert!(!kv.key_exists(b, "k".to_string()).unwrap());
    let b = bucket(&mut kv, "two");
    assert_eq!(kv.get(b, "k".to_string()).unwrap(), Some(b"two".to_vec()));
    let b = bucket(&mut kv, "two");
    assert_eq!(kv.get_many(b, Vec::new()).unwrap(), Vec::new());
}

#[test]
fn refused_handles_are_answered_and_change_nothing() {
    let (mut ctx, _dir) = make_ctx();
    let mut table = ResourceTable::new();
    let other = table.push(7u8).unwrap().rep();
    let mut kv = WasiKeyValueRedb::new(&mut ctx, &mut table);
    for (rep, text) in [
        (other, "resource is of another type"),
        (99, "resource not present"),
    ] {
        let handle = || Resource::<Bucket>::new_own(rep);
        let key = || "k".to_string();
        assert_eq!(message(kv.get(handle(), key()).unwrap_err()), text);
        assert_eq!(message(kv.set(handle(), key(), Vec::new()).unwrap_err()), text);
        assert_eq!(message(kv.delete(handle(), key()).unwrap_err()), text);
        assert_eq!(message(kv.key_exists(handle(), key()).unwrap_err()), text);
        assert_eq!(message(kv.list_keys(handle(), None).err().unwrap()), text);
        assert_eq!(message(kv.increment(handle(), key(), 1).unwrap_err()), text);
        assert_eq!(message(kv.get_many(handle(), vec![key()]).unwrap_err()), text);
        assert_eq!(message(kv.set_many(handle(), Vec::new()).unwrap_err()), text);
        assert_eq!(message(kv.delete_many(handle(), Vec::new()).unwrap_err()), text);
    }
    let b = bucket(&mut kv, "");
    assert!(kv.list_keys(b, None).unwrap().keys.is_empty());
}

#[test]
fn full_table_opens_no_bucket() {
    let (mut ctx, _dir) = make_ctx();
    let mut table = ResourceTable::new();
    table.set_max_capacity(1);
    let mut kv = WasiKeyValueRedb::new(&mut ctx, &mut table);
    let first = kv.open("a".to_string()).unwrap();
    assert_eq!(
        message(kv.open("b".to_string()).unwrap_err()),
        "resource table has no free keys"
    );
    kv.drop(first).unwrap();
    assert!(kv.open("b".to_string()).is_ok());
}

#[test]
fn dropped_handles_are_gone() {
    let (mut ctx, _dir) = make_ctx();
    let mut table = ResourceTable::new();
    let other = table.push(7u8).unwrap().rep();
    let mut kv = WasiKeyValueRedb::new(&mut ctx, &mut table);
    let handle = kv.open("a".to_string()).unwrap();
    let rep = handle.rep();
    kv.drop(handle).unwrap();
    let gone = kv.drop(Resource::new_own(rep)).unwrap_err();
    assert_eq!(gone.to_string(), "resource not present");
    let wrong = kv.drop(Resource::new_own(other)).unwrap_err();
    assert_eq!(wrong.to_string(), "resource is of another type");
    let freed = kv.drop(Resource::new_own(other)).unwrap_err();
    assert_eq!(freed.to_string(), "resource not present");
}

#[test]
fn parents_and_borrowed_handles_are_not_dropped() {
    let (mut ctx, _dir) = make_ctx();
    let mut table = ResourceTable::new();
    let rep;
    {
        let mut kv = WasiKeyValueRedb::new(&mut ctx, &mut table);
        rep = kv.open("a".to_string()).unwrap().rep();
        assert!(kv.drop_if_owned(Resource::new_borrow(rep)).is_none());
    }
    let child = table.push_child(1u8, &Resource::<Bucket>::new_own(rep)).unwrap();
    {
        let mut kv = WasiKeyValueRedb::new(&mut ctx, &mut table);
        let refused = kv.drop_if_owned(Resource::new_own(rep)).unwrap().unwrap_err();
        assert_eq!(refused.to_string(), "resource has children");
        assert_eq!(kv.get(Resource::new_own(rep), "k".to_string()).unwrap(), None);
    }
    table.delete(child).unwrap();
    let mut kv = WasiKeyValueRedb::new(&mut ctx, &mut table);
    kv.drop_if_owned(Resource::new_own(rep)).unwrap().unwrap();
    assert!(kv.get(Resource::new_own(rep), "k".to_string()).is_err());
}

#[test]
fn other_tables_stay() {
    const OTHER: TableDefinition<&str, &[u8]> = TableDefinition::new("other");
    let dir = tempfile::tempdir().unwrap();
    let path = dir.path().join("shared.redb");
    {
        let db = Database::create(&path).unwrap();
        let txn = db.begin_write().unwrap();
        txn.open_table(OTHER)
            .unwrap()
            .insert("b\0k", b"mine".as_slice())
            .unwrap();
        txn.commit().unwrap();
        let mut ctx = WasiKeyValueRedbCtxBuilder::new().database(db).build().unwrap();
        let mut table = ResourceTable::new();
        let mut kv = WasiKeyValueRedb::new(&mut ctx, &mut table);
        let b = bucket(&mut kv, "b");
        assert_eq!(kv.get(b, "k".to_string()).unwrap(), None);
        let b = bucket(&mut kv, "b");
        kv.set(b, "k".to_string(), b"theirs".to_vec()).unwrap();
        let b = bucket(&mut kv, "b");
        kv.delete(b, "k".to_string()).unwrap();
    }
    let db = Database::create(&path).unwrap();
    let txn = db.begin_read().unwrap();
    let rows = txn.open_table(OTHER).unwrap();
    assert_eq!(rows.get("b\0k").unwrap().unwrap().value(), b"mine".as_slice());
}
