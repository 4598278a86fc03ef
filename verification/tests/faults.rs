use redb::backends::InMemoryBackend;
use redb::{Database, StorageBackend};
use std::sync::atomic::{AtomicBool, Ordering};
use std::sync::Arc;
use wasmtime::component::{Resource, ResourceTable};
use wasmtime_wasi_keyvalue_redb::{
    Bucket, BuilderError, Error, WasiKeyValueRedb, WasiKeyValueRedbCtx, WasiKeyValueRedbCtxBuilder,
};

/// A storage that fails to read, or to write, while it is told to.
#[derive(Debug)]
struct Flaky {
    inner: InMemoryBackend,
    no_reads: Arc<AtomicBool>,
    no_writes: Arc<AtomicBool>,
}

fn fault(told: &AtomicBool) -> Result<(), std::io::Error> {
    if told.load(Ordering::SeqCst) {
        Err(std::io::Error::other("told to fail"))
    } else {
        Ok(())
    }
}

impl StorageBackend for Flaky {
    fn len(&self) -> Result<u64, std::io::Error> {
        self.inner.len()
    }

    fn read(&self, offset: u64, out: &mut [u8]) -> Result<(), std::io::Error> {
        fault(&self.no_reads)?;
        self.inner.read(offset, out)
    }

    fn set_len(&self, len: u64) -> Result<(), std::io::Error> {
        fault(&self.no_writes)?;
        self.inner.set_len(len)
    }

    fn sync_data(&self) -> Result<(), std::io::Error> {
        fault(&self.no_writes)?;
        self.inner.sync_data()
    }

    fn write(&self, offset: u64, data: &[u8]) -> Result<(), std::io::Error> {
        fault(&self.no_writes)?;
        self.inner.write(offset, data)
    }
}

fn flaky_database() -> (Database, Arc<AtomicBool>, Arc<AtomicBool>) {
    let no_reads = Arc::new(AtomicBool::new(false));
    let no_writes = Arc::new(AtomicBool::new(false));
    let db = Database::builder()
        .set_cache_size(0)
        .create_with_backend(Flaky {
            inner: InMemoryBackend::new(),
            no_reads: no_reads.clone(),
            no_writes: no_writes.clone(),
        })
        .unwrap();
    (db, no_reads, no_writes)
}

fn flaky() -> (WasiKeyValueRedbCtx, Arc<AtomicBool>, Arc<AtomicBool>) {
    let (db, no_reads, no_writes) = flaky_database();
    let ctx = WasiKeyValueRedbCtxBuilder::new().database(db).build().unwrap();
    (ctx, no_reads, no_writes)
}

fn bucket(kv: &mut WasiKeyValueRedb<'_>) -> Resource<Bucket> {
    kv.open("b".to_string()).unwrap()
}

fn is_message<V>(served: Result<V, Error>) -> bool {
    matches!(served, Err(Error::Other(text)) if !text.is_empty())
}

/// Whether a request failed with the words that redb gives to a failure of its storage.
fn blames_storage<V>(served: Result<V, Error>) -> bool {
    match served {
        Err(Error::Other(text)) => {
            text == "I/O error: told to fail"
                || text == "Previous I/O error occurred. Please close and re-open the database."
        }
        _ => false,
    }
}

#[test]
fn failed_changes_are_whole_or_not_made() {
    let (mut ctx, _no_reads, no_writes) = flaky();
    let mut table = ResourceTable::new();
    let mut kv = WasiKeyValueRedb::new(&mut ctx, &mut table);
    let b = bucket(&mut kv);
    kv.set(b, "k".to_string(), b"old".to_vec()).unwrap();

    no_writes.store(true, Ordering::SeqCst);
    let b = bucket(&mut kv);
    let served = kv.set_many(
        b,
        vec![
            ("k".to_string(), b"new".to_vec()),
            ("l".to_string(), b"new".to_vec()),
        ],
    );
    assert!(is_message(served));
    no_writes.store(false, Ordering::SeqCst);

    let b = bucket(&mut kv);
    if let Ok(found) = kv.get_many(b, vec!["k".to_string(), "l".to_string()]) {
        let values: Vec<Option<Vec<u8>>> = found.into_iter().map(|e| e.map(|(_, v)| v)).collect();
        let unmade = vec![Some(b"old".to_vec()), None];
        let made = vec![Some(b"new".to_vec()), Some(b"new".to_vec())];
        assert!(values == unmade || values == made);
    }
}

#[test]
fn storage_failures_are_reported() {
    let (mut ctx, no_reads, _no_writes) = flaky();
    let mut table = ResourceTable::new();
    let mut kv = WasiKeyValueRedb::new(&mut ctx, &mut table);
    let b = bucket(&mut kv);
    kv.set(b, "k".to_string(), b"v".to_vec()).unwrap();

    no_reads.store(true, Ordering::SeqCst);
    let b = bucket(&mut kv);
    assert!(blames_storage(kv.get(b, "k".to_string())));
    let b = bucket(&mut kv);
    assert!(blames_storage(kv.key_exists(b, "k".to_string())));
    let b = bucket(&mut kv);
    assert!(blames_storage(kv.list_keys(b, None)));
    let b = bucket(&mut kv);
    assert!(blames_storage(kv.list_keys(b, Some(u64::MAX))));
    let b = bucket(&mut kv);
    assert!(blames_storage(kv.get_many(b, vec!["k".to_string()])));
    let b = bucket(&mut kv);
    assert!(blames_storage(kv.set(b, "k".to_string(), Vec::new())));
    let b = bucket(&mut kv);
    assert!(blames_storage(kv.delete(b, "k".to_string())));
    let b = bucket(&mut kv);
    assert!(blames_storage(kv.increment(b, "k".to_string(), 1)));
    let b = bucket(&mut kv);
    assert!(blames_storage(kv.delete_many(b, vec!["k".to_string()])));
}

#[test]
fn failed_build_keeps_the_failure() {
    let (db, _no_reads, no_writes) = flaky_database();
    no_writes.store(true, Ordering::SeqCst);
    let refused = WasiKeyValueRedbCtxBuilder::new().database(db).build().err().unwrap();
    assert!(matches!(
        refused,
        BuilderError::Commit(redb::CommitError::Storage(redb::StorageError::Io(_)))
    ));
    assert_eq!(refused.message(), "I/O error: told to fail");
}
