//! The host side of the key-value interface.

use crate::context::{begin_lookup, begin_update, finish_update, WasiKeyValueRedbCtx, TABLE};
use crate::counter::{advance, capped_sum, counter_value, decimal, to_decimal};
use crate::error::{blames_storage, reports_change, reports_read, says, words_of, Error};
use crate::handles::{delete_bucket, get_bucket, is_owned, push_bucket, Bucket};
use crate::handles::{deletable, displays, entries, is_full, orphans, owned, parents, slot};
use crate::keys::{ascending, bucket_prefix, bucket_range_end, encode_key, encoded, in_range};
use crate::keys::{precedes, prefix_keeps_order, range_is_prefix};
use crate::storage::{abandon, draft_get, draft_insert, draft_remove, next_key, rows_get, scan_keys};
use crate::storage::{ahead, broken, draft, live, rows_of, same_progress, Rows};
use redb::Error as RedbError;
use redb::{CommitError, WriteTransaction};
use vstd::prelude::*;
use vstd::string::*;
use wasmtime::component::{Resource, ResourceTable, ResourceTableError};

verus! {

/// A page of the keys of a bucket.
#[derive(Debug)]
pub struct KeyResponse {
    /// The keys.
    pub keys: Vec<String>,
    /// Where the next page starts, if there is one.
    pub cursor: Option<u64>,
}

/// Short-lived view of a context and a resource table that serves the interface.
pub struct WasiKeyValueRedb<'a> {
    /// The context that the view was made of.
    pub ctx: &'a mut WasiKeyValueRedbCtx,
    /// The table in which open buckets are kept.
    pub table: &'a mut ResourceTable,
}

/// The value of `key` in `bucket`, if it has one.
pub open spec fn value_of(rows: Rows, bucket: Seq<char>, key: Seq<char>) -> Option<Seq<u8>> {
    if rows.contains_key(encoded(bucket, key)) {
        Some(rows[encoded(bucket, key)])
    } else {
        None
    }
}

/// The rows after `key` in `bucket` was given `value`.
pub open spec fn with_value(rows: Rows, bucket: Seq<char>, key: Seq<char>, value: Seq<u8>) -> Rows {
    rows.insert(encoded(bucket, key), value)
}

/// The rows after `key` in `bucket` lost its value.
pub open spec fn without_value(rows: Rows, bucket: Seq<char>, key: Seq<char>) -> Rows {
    rows.remove(encoded(bucket, key))
}

/// The name of the bucket that an identifier opens.
pub open spec fn bucket_named(identifier: Seq<char>) -> Seq<char> {
    if identifier.len() == 0 {
        "default"@
    } else {
        identifier
    }
}

/// Why a handle of `slot` does not stand for an open bucket, or `None` where it does.
pub open spec fn refusal(entries: Map<u32, Option<Seq<char>>>, slot: u32) -> Option<Seq<char>> {
    if !entries.contains_key(slot) {
        Some("resource not present"@)
    } else if entries[slot] is None {
        Some("resource is of another type"@)
    } else {
        None
    }
}

/// Why an owning handle of `slot` does not close an open bucket, or `None` where it does.
pub open spec fn drop_refusal(table: ResourceTable, slot: u32) -> Option<Seq<char>> {
    if entries(table).contains_key(slot) && parents(table).contains(slot) {
        Some("resource has children"@)
    } else {
        refusal(entries(table), slot)
    }
}

/// How a request to close the entry of `slot` changes a resource table: the slot is freed, whatever
/// the type of its entry, unless it is free already or its entry has children.
pub open spec fn dropped(before: ResourceTable, after: ResourceTable, slot: u32) -> bool {
    if entries(before).contains_key(slot) && !parents(before).contains(slot) {
        &&& entries(after) == entries(before).remove(slot)
        &&& exists|parent: u32| parents(after) == #[trigger] parents(before).remove(parent)
        &&& orphans(after) == orphans(before)
        &&& !is_full(after)
    } else {
        after == before
    }
}

/// What an optional vector of bytes holds.
pub open spec fn bytes_of(value: Option<Vec<u8>>) -> Option<Seq<u8>> {
    match value {
        Some(bytes) => Some(bytes@),
        None => None,
    }
}

/// Whether `r` answers for what became of a change of the rows to `updated`: a change that succeeded
/// was made. One that failed was not made, or, where only the commit failed, was made whole.
pub open spec fn applied<V>(r: Result<V, Error>, before: Rows, after: Rows, updated: Rows) -> bool {
    match r {
        Ok(_) => after == updated,
        Err(e) => {
            &&& reports_change(e)
            &&& after == before || after == updated && words_of::<CommitError>(e)
        },
    }
}

/// What a vector of strings holds.
pub open spec fn texts(strings: Seq<String>) -> Seq<Seq<char>> {
    strings.map_values(|s: String| s@)
}

/// How many keys a cursor passes over.
pub open spec fn page_start(cursor: Option<u64>) -> nat {
    match cursor {
        Some(position) => (position as usize) as nat,
        None => 0,
    }
}

/// What is left of `keys` after the first `start` of them.
pub open spec fn page_of(keys: Seq<Seq<char>>, start: nat) -> Seq<Seq<char>> {
    if start <= keys.len() {
        keys.skip(start as int)
    } else {
        Seq::empty()
    }
}

/// Whether `keys` are the keys of `bucket` that have a value, in ascending order.
pub open spec fn is_listing(keys: Seq<Seq<char>>, rows: Rows, bucket: Seq<char>) -> bool {
    &&& ascending(keys)
    &&& forall|key: Seq<char>| #[trigger] keys.contains(key) <==> value_of(rows, bucket, key) is Some
}

/// Whether `keys` are the keys of `bucket` that have a value, in ascending order, without the first
/// `start` of them.
pub open spec fn lists(keys: Seq<Seq<char>>, rows: Rows, bucket: Seq<char>, start: nat) -> bool {
    exists|all: Seq<Seq<char>>| #[trigger]
        is_listing(all, rows, bucket) && keys == page_of(all, start)
}

/// Where the counter that `key` holds stands once it has been advanced by `delta`.
pub open spec fn counter_after(rows: Rows, bucket: Seq<char>, key: Seq<char>, delta: u64) -> u64 {
    capped_sum(counter_value(value_of(rows, bucket, key)), delta)
}

/// What a key and its value hold.
pub open spec fn answer(entry: Option<(String, Vec<u8>)>) -> Option<(Seq<char>, Seq<u8>)> {
    match entry {
        Some((key, value)) => Some((key@, value@)),
        None => None,
    }
}

/// What a vector of keys and values holds.
pub open spec fn answers(found: Seq<Option<(String, Vec<u8>)>>) -> Seq<
    Option<(Seq<char>, Seq<u8>)>,
> {
    found.map_values(|entry: Option<(String, Vec<u8>)>| answer(entry))
}

/// Each of `keys` with its value, or `None` where it has none.
pub open spec fn values_of(rows: Rows, bucket: Seq<char>, keys: Seq<Seq<char>>) -> Seq<
    Option<(Seq<char>, Seq<u8>)>,
> {
    keys.map_values(
        |key: Seq<char>|
            match value_of(rows, bucket, key) {
                Some(value) => Some((key, value)),
                None => None,
            },
    )
}

/// What a vector of keys with values holds.
pub open spec fn pairs(key_values: Seq<(String, Vec<u8>)>) -> Seq<(Seq<char>, Seq<u8>)> {
    key_values.map_values(|pair: (String, Vec<u8>)| (pair.0@, pair.1@))
}

/// The rows after each key of `pairs`, one after the other, was given its value.
pub open spec fn with_values(
    rows: Rows,
    bucket: Seq<char>,
    pairs: Seq<(Seq<char>, Seq<u8>)>,
) -> Rows
    decreases pairs.len(),
{
    if pairs.len() == 0 {
        rows
    } else {
        with_value(
            with_values(rows, bucket, pairs.drop_last()),
            bucket,
            pairs.last().0,
            pairs.last().1,
        )
    }
}

/// The rows after each of `keys`, one after the other, lost its value.
pub open spec fn without_values(rows: Rows, bucket: Seq<char>, keys: Seq<Seq<char>>) -> Rows
    decreases keys.len(),
{
    if keys.len() == 0 {
        rows
    } else {
        without_value(without_values(rows, bucket, keys.drop_last()), bucket, keys.last())
    }
}

/// The names without their first `n` characters.
spec fn stripped(names: Seq<Seq<char>>, n: int) -> Seq<Seq<char>> {
    names.map_values(|name: Seq<char>| name.skip(n))
}

/// The names that a scan of a bucket meets, without their prefix, are the keys of the bucket.
proof fn scan_is_listing(names: Seq<Seq<char>>, rows: Rows, bucket: Seq<char>)
    requires
        ascending(names),
        forall|name: Seq<char>| #[trigger]
            names.contains(name) <==> rows.contains_key(name) && in_range(
                name,
                bucket.push('\0'),
                bucket.push('\x01'),
            ),
    ensures
        is_listing(stripped(names, bucket.len() as int + 1), rows, bucket),
        forall|i: int| 0 <= i < names.len() ==> bucket.push('\0').is_prefix_of(#[trigger] names[i]),
{
    let prefix = bucket.push('\0');
    let n = bucket.len() as int + 1;
    let keys = stripped(names, n);
    assert forall|i: int| 0 <= i < names.len() implies prefix.is_prefix_of(#[trigger] names[i])
        && names[i] == encoded(bucket, keys[i]) by {
        assert(names.contains(names[i]));
        range_is_prefix(bucket, names[i]);
        assert(names[i] =~= prefix + keys[i]);
    }
    assert forall|i: int, j: int| 0 <= i < j < keys.len() implies precedes(
        #[trigger] keys[i],
        #[trigger] keys[j],
    ) by {
        assert(precedes(names[i], names[j]));
        prefix_keeps_order(prefix, keys[i], keys[j]);
    }
    assert forall|key: Seq<char>| #[trigger] keys.contains(key) implies value_of(rows, bucket, key)
        is Some by {
        let i = choose|i: int| 0 <= i < keys.len() && keys[i] == key;
        assert(names.contains(names[i]));
    }
    assert forall|key: Seq<char>| value_of(rows, bucket, key) is Some implies #[trigger]
        keys.contains(key) by {
        let name = encoded(bucket, key);
        assert(prefix =~= name.subrange(0, n));
        range_is_prefix(bucket, name);
        assert(names.contains(name));
        let i = choose|i: int| 0 <= i < names.len() && names[i] == name;
        assert(keys[i] =~= key);
    }
}

/// The open bucket that a handle stands for, or why there is none.
fn find_bucket<'t>(table: &'t ResourceTable, handle: &Resource<Bucket>) -> (r: Result<
    &'t Bucket,
    Error,
>)
    ensures
        match refusal(entries(*table), slot(*handle)) {
            Some(text) => r matches Err(e) && says(e, text),
            None => r matches Ok(bucket) && Some(bucket@) == entries(*table)[slot(*handle)],
        },
{
    match get_bucket(table, handle) {
        Ok(bucket) => Ok(bucket),
        Err(e) => Err(Error::from(e)),
    }
}

/// Gives each key of `key_values`, one after the other, its value in the draft.
fn draft_pairs(txn: &mut WriteTransaction, bucket: &str, key_values: &Vec<(String, Vec<u8>)>) -> (r:
    Result<(), RedbError>)
    requires
        live(*old(txn)),
        draft(*old(txn)).contains_key(TABLE@),
    ensures
        same_progress(*old(txn), *final(txn)),
        match r {
            Ok(_) => draft(*final(txn)) == draft(*old(txn)).insert(
                TABLE@,
                with_values(draft(*old(txn))[TABLE@], bucket@, pairs(key_values@)),
            ),
            Err(e) => blames_storage(e),
        },
{
    let ghost before = draft(*txn);
    let mut i: usize = 0;
    while i < key_values.len()
        invariant
            i <= key_values.len(),
            live(*txn),
            same_progress(*old(txn), *txn),
            draft(*txn) == before.insert(
                TABLE@,
                with_values(before[TABLE@], bucket@, pairs(key_values@).take(i as int)),
            ),
        decreases key_values.len() - i,
    {
        let name = encode_key(bucket, key_values[i].0.as_str());
        match draft_insert(txn, TABLE, name.as_str(), key_values[i].1.as_slice()) {
            Ok(_) => {},
            Err(e) => {
                return Err(e);
            },
        }
        assert(pairs(key_values@).take(i + 1).drop_last() =~= pairs(key_values@).take(i as int));
        i = i + 1;
    }
    assert(pairs(key_values@).take(i as int) =~= pairs(key_values@));
    Ok(())
}

/// Takes the value of each of `keys`, one after the other, away in the draft.
fn draft_removals(txn: &mut WriteTransaction, bucket: &str, keys: &Vec<String>) -> (r: Result<
    (),
    RedbError,
>)
    requires
        live(*old(txn)),
        draft(*old(txn)).contains_key(TABLE@),
    ensures
        same_progress(*old(txn), *final(txn)),
        match r {
            Ok(_) => draft(*final(txn)) == draft(*old(txn)).insert(
                TABLE@,
                without_values(draft(*old(txn))[TABLE@], bucket@, texts(keys@)),
            ),
            Err(e) => blames_storage(e),
        },
{
    let ghost before = draft(*txn);
    let mut i: usize = 0;
    while i < keys.len()
        invariant
            i <= keys.len(),
            live(*txn),
            same_progress(*old(txn), *txn),
            draft(*txn) == before.insert(
                TABLE@,
                without_values(before[TABLE@], bucket@, texts(keys@).take(i as int)),
            ),
        decreases keys.len() - i,
    {
        let name = encode_key(bucket, keys[i].as_str());
        match draft_remove(txn, TABLE, name.as_str()) {
            Ok(_) => {},
            Err(e) => {
                return Err(e);
            },
        }
        assert(texts(keys@).take(i + 1).drop_last() =~= texts(keys@).take(i as int));
        i = i + 1;
    }
    assert(texts(keys@).take(i as int) =~= texts(keys@));
    Ok(())
}

// A method changes what the references of a view refer to, never which they are: its first two
// clauses say that the view still lends the context and the table that it lent before, so that
// what the last method leaves there is what their owner finds.
impl<'a> WasiKeyValueRedb<'a> {
    /// The rows of all buckets.
    pub open spec fn rows(self) -> Rows {
        self.ctx.rows()
    }

    /// Why a handle is refused, or `None` where it stands for an open bucket.
    pub open spec fn refuses(self, handle: Resource<Bucket>) -> Option<Seq<char>> {
        refusal(entries(*self.table), slot(handle))
    }

    /// The name of the open bucket that a handle stands for.
    pub open spec fn bucket(self, handle: Resource<Bucket>) -> Seq<char>
        recommends
            self.refuses(handle) is None,
    {
        entries(*self.table)[slot(handle)].unwrap()
    }

    /// A view of `ctx` and `table`.
    pub fn new(ctx: &'a mut WasiKeyValueRedbCtx, table: &'a mut ResourceTable) -> (view: Self)
        ensures
            *view.ctx == *old(ctx),
            *view.table == *old(table),
            *final(view.ctx) == *final(ctx),
            *final(view.table) == *final(table),
    {
        WasiKeyValueRedb { ctx, table }
    }

    /// Opens the bucket that `identifier` names; the empty one names the bucket `default`.
    pub fn open(&mut self, identifier: String) -> (r: Result<Resource<Bucket>, Error>)
        ensures
            *final(final(self).ctx) == *final(old(self).ctx),
            *final(final(self).table) == *final(old(self).table),
            *final(self).ctx == *old(self).ctx,
            is_full(*old(self).table) ==> {
                &&& r matches Err(e) && says(e, "resource table has no free keys"@)
                &&& *final(self).table == *old(self).table
            },
            !is_full(*old(self).table) ==> {
                &&& r matches Ok(handle)
                &&& owned(handle)
                &&& !entries(*old(self).table).contains_key(slot(handle))
                &&& entries(*final(self).table) == entries(*old(self).table).insert(
                    slot(handle),
                    Some(bucket_named(identifier@)),
                )
                &&& parents(*final(self).table) == parents(*old(self).table)
                &&& !parents(*final(self).table).contains(slot(handle))
                &&& orphans(*final(self).table) == orphans(*old(self).table)
                &&& !orphans(*final(self).table).contains(slot(handle))
            },
    {
        let name = if identifier.as_str().is_empty() {
            "default".to_owned()
        } else {
            identifier
        };
        match push_bucket(self.table, Bucket::named(name)) {
            Ok(handle) => Ok(handle),
            Err(e) => Err(Error::from(e)),
        }
    }

    /// Closes the bucket that an owning handle stands for.
    pub fn drop(&mut self, bucket: Resource<Bucket>) -> (r: Result<(), ResourceTableError>)
        requires
            owned(bucket),
            deletable(*old(self).table, slot(bucket)),
        ensures
            *final(final(self).ctx) == *final(old(self).ctx),
            *final(final(self).table) == *final(old(self).table),
            *final(self).ctx == *old(self).ctx,
            dropped(*old(self).table, *final(self).table, slot(bucket)),
            match drop_refusal(*old(self).table, slot(bucket)) {
                Some(text) => r matches Err(e) && displays(e, text),
                None => r is Ok,
            },
    {
        match delete_bucket(self.table, bucket) {
            Ok(_) => Ok(()),
            Err(e) => Err(e),
        }
    }

    /// Closes the bucket that a handle stands for if the handle owns it, and returns `None` if it
    /// does not.
    pub fn drop_if_owned(&mut self, bucket: Resource<Bucket>) -> (r: Option<
        Result<(), ResourceTableError>,
    >)
        requires
            owned(bucket) ==> deletable(*old(self).table, slot(bucket)),
        ensures
            *final(final(self).ctx) == *final(old(self).ctx),
            *final(final(self).table) == *final(old(self).table),
            *final(self).ctx == *old(self).ctx,
            !owned(bucket) ==> r is None && *final(self).table == *old(self).table,
            owned(bucket) ==> {
                &&& dropped(*old(self).table, *final(self).table, slot(bucket))
                &&& match drop_refusal(*old(self).table, slot(bucket)) {
                    Some(text) => r matches Some(Err(e)) && displays(e, text),
                    None => r matches Some(Ok(_)),
                }
            },
    {
        if is_owned(&bucket) {
            Some(self.drop(bucket))
        } else {
            None
        }
    }

    /// The value of `key`, if it has one.
    pub fn get(&mut self, bucket: Resource<Bucket>, key: String) -> (r: Result<
        Option<Vec<u8>>,
        Error,
    >)
        requires
            old(self).ctx.well_formed(),
        ensures
            *final(final(self).ctx) == *final(old(self).ctx),
            *final(final(self).table) == *final(old(self).table),
            *final(self).ctx == *old(self).ctx,
            *final(self).table == *old(self).table,
            match old(self).refuses(bucket) {
                Some(text) => r matches Err(e) && says(e, text),
                None => match r {
                    Ok(value) => bytes_of(value) == value_of(
                        old(self).rows(),
                        old(self).bucket(bucket),
                        key@,
                    ),
                    Err(e) => reports_read(e),
                },
            },
    {
        let bucket = match find_bucket(&*self.table, &bucket) {
            Ok(bucket) => bucket,
            Err(e) => {
                return Err(e);
            },
        };
        let name = encode_key(bucket.name(), key.as_str());
        let rows = match begin_lookup(&self.ctx.db) {
            Ok(rows) => rows,
            Err(e) => {
                return Err(e);
            },
        };
        match rows_get(&rows, name.as_str()) {
            Ok(value) => Ok(value),
            Err(e) => Err(Error::from(e)),
        }
    }

    /// Gives `key` a value.
    pub fn set(&mut self, bucket: Resource<Bucket>, key: String, value: Vec<u8>) -> (r: Result<
        (),
        Error,
    >)
        requires
            old(self).ctx.well_formed(),
        ensures
            *final(final(self).ctx) == *final(old(self).ctx),
            *final(final(self).table) == *final(old(self).table),
            *final(self).table == *old(self).table,
            final(self).ctx.continues(*old(self).ctx),
            match old(self).refuses(bucket) {
                Some(text) => {
                    &&& r matches Err(e) && says(e, text)
                    &&& *final(self).ctx == *old(self).ctx
                },
                None => applied(
                    r,
                    old(self).rows(),
                    final(self).rows(),
                    with_value(old(self).rows(), old(self).bucket(bucket), key@, value@),
                ),
            },
    {
        let bucket = match find_bucket(&*self.table, &bucket) {
            Ok(bucket) => bucket,
            Err(e) => {
                return Err(e);
            },
        };
        let name = encode_key(bucket.name(), key.as_str());
        let mut txn = match begin_update(&mut self.ctx.db) {
            Ok(txn) => txn,
            Err(e) => {
                return Err(e.reported());
            },
        };
        match draft_insert(&mut txn, TABLE, name.as_str(), value.as_slice()) {
            Ok(_) => {},
            Err(e) => {
                abandon(&mut self.ctx.db, txn);
                return Err(Error::from(e));
            },
        }
        assert(draft(txn).remove(TABLE@) =~= old(self).ctx.other_tables());
        finish_update(&mut self.ctx.db, txn)
    }

    /// Takes the value of `key` away, if it has one.
    pub fn delete(&mut self, bucket: Resource<Bucket>, key: String) -> (r: Result<(), Error>)
        requires
            old(self).ctx.well_formed(),
        ensures
            *final(final(self).ctx) == *final(old(self).ctx),
            *final(final(self).table) == *final(old(self).table),
            *final(self).table == *old(self).table,
            final(self).ctx.continues(*old(self).ctx),
            match old(self).refuses(bucket) {
                Some(text) => {
                    &&& r matches Err(e) && says(e, text)
                    &&& *final(self).ctx == *old(self).ctx
                },
                None => applied(
                    r,
                    old(self).rows(),
                    final(self).rows(),
                    without_value(old(self).rows(), old(self).bucket(bucket), key@),
                ),
            },
    {
        let bucket = match find_bucket(&*self.table, &bucket) {
            Ok(bucket) => bucket,
            Err(e) => {
                return Err(e);
            },
        };
        let name = encode_key(bucket.name(), key.as_str());
        let mut txn = match begin_update(&mut self.ctx.db) {
            Ok(txn) => txn,
            Err(e) => {
                return Err(e.reported());
            },
        };
        match draft_remove(&mut txn, TABLE, name.as_str()) {
            Ok(_) => {},
            Err(e) => {
                abandon(&mut self.ctx.db, txn);
                return Err(Error::from(e));
            },
        }
        assert(draft(txn).remove(TABLE@) =~= old(self).ctx.other_tables());
        finish_update(&mut self.ctx.db, txn)
    }

    /// Whether `key` has a value.
    pub fn key_exists(&mut self, bucket: Resource<Bucket>, key: String) -> (r: Result<bool, Error>)
        requires
            old(self).ctx.well_formed(),
        ensures
            *final(final(self).ctx) == *final(old(self).ctx),
            *final(final(self).table) == *final(old(self).table),
            *final(self).ctx == *old(self).ctx,
            *final(self).table == *old(self).table,
            match old(self).refuses(bucket) {
                Some(text) => r matches Err(e) && says(e, text),
                None => match r {
                    Ok(found) => found == value_of(
                        old(self).rows(),
                        old(self).bucket(bucket),
                        key@,
                    ) is Some,
                    Err(e) => reports_read(e),
                },
            },
    {
        let bucket = match find_bucket(&*self.table, &bucket) {
            Ok(bucket) => bucket,
            Err(e) => {
                return Err(e);
            },
        };
        let name = encode_key(bucket.name(), key.as_str());
        let rows = match begin_lookup(&self.ctx.db) {
            Ok(rows) => rows,
            Err(e) => {
                return Err(e);
            },
        };
        match rows_get(&rows, name.as_str()) {
            Ok(value) => Ok(value.is_some()),
            Err(e) => Err(Error::from(e)),
        }
    }

    /// The keys of the bucket in ascending order, without the first `cursor` of them. All of the
    /// rest are on one page.
    pub fn list_keys(&mut self, bucket: Resource<Bucket>, cursor: Option<u64>) -> (r: Result<
        KeyResponse,
        Error,
    >)
        requires
            old(self).ctx.well_formed(),
        ensures
            *final(final(self).ctx) == *final(old(self).ctx),
            *final(final(self).table) == *final(old(self).table),
            *final(self).ctx == *old(self).ctx,
            *final(self).table == *old(self).table,
            match old(self).refuses(bucket) {
                Some(text) => r matches Err(e) && says(e, text),
                None => match r {
                    Ok(page) => {
                        &&& page.cursor is None
                        &&& lists(
                            texts(page.keys@),
                            old(self).rows(),
                            old(self).bucket(bucket),
                            page_start(cursor),
                        )
                    },
                    Err(e) => reports_read(e),
                },
            },
    {
        let found = match find_bucket(&*self.table, &bucket) {
            Ok(found) => found,
            Err(e) => {
                return Err(e);
            },
        };
        let prefix = bucket_prefix(found.name());
        let end = bucket_range_end(found.name());
        let prefix_len: usize = prefix.as_str().unicode_len();
        let ghost name = found@;
        let rows = match begin_lookup(&self.ctx.db) {
            Ok(rows) => rows,
            Err(e) => {
                return Err(e);
            },
        };
        let mut scan = match scan_keys(&rows, prefix.as_str(), end.as_str()) {
            Ok(scan) => scan,
            Err(e) => {
                return Err(Error::from(e));
            },
        };
        let ghost names = ahead(scan);
        let ghost all = stripped(names, prefix_len as int);
        proof {
            scan_is_listing(names, rows_of(rows), name);
        }
        let start: usize = match cursor {
            Some(position) => #[verifier::truncate] (position as usize),
            None => 0,
        };
        let mut skipped: usize = 0;
        let mut met_all = false;
        while !met_all && skipped < start
            invariant
                skipped <= start,
                !broken(scan) ==> ahead(scan) == page_of(
                    names,
                    if met_all {
                        start as nat
                    } else {
                        skipped as nat
                    },
                ),
            decreases start - skipped, (if met_all { 0int } else { 1int }),
        {
            match next_key(&mut scan) {
                Some(Ok(_)) => {
                    assert(ahead(scan) =~= page_of(names, (skipped + 1) as nat));
                    skipped = skipped + 1;
                },
                _ => {
                    met_all = true;
                    assert(!broken(scan) ==> ahead(scan) =~= page_of(names, start as nat));
                },
            }
        }
        let mut keys: Vec<String> = Vec::new();
        let ghost rest = page_of(names, start as nat);
        loop
            invariant
                old(self).refuses(bucket) is None,
                keys@.len() <= rest.len(),
                !broken(scan) ==> ahead(scan) == rest.skip(keys@.len() as int),
                texts(keys@) == stripped(rest, prefix_len as int).take(keys@.len() as int),
                prefix_len == name.len() + 1,
                forall|i: int|
                    0 <= i < rest.len() ==> name.push('\0').is_prefix_of(#[trigger] rest[i]),
            ensures
                texts(keys@) == stripped(rest, prefix_len as int),
            decreases rest.len() - keys@.len(),
        {
            let filed = match next_key(&mut scan) {
                Some(Ok(filed)) => filed,
                Some(Err(e)) => {
                    return Err(Error::from(e));
                },
                None => {
                    break;
                },
            };
            let filed_len: usize = filed.as_str().unicode_len();
            let key = filed.as_str().substring_char(prefix_len, filed_len).to_owned();
            let ghost before = keys@;
            keys.push(key);
            assert(texts(keys@) =~= stripped(rest, prefix_len as int).take(keys@.len() as int)) by {
                assert(filed@.subrange(prefix_len as int, filed_len as int) =~= filed@.skip(
                    prefix_len as int,
                ));
                assert forall|i: int| 0 <= i < before.len() implies texts(keys@)[i] == stripped(
                    rest,
                    prefix_len as int,
                )[i] by {
                    assert(texts(keys@)[i] == texts(before)[i]);
                }
            }
        }
        assert(texts(keys@) =~= page_of(all, start as nat));
        Ok(KeyResponse { keys, cursor: None })
    }

    /// Advances the counter that `key` holds by `delta`, as far as the largest number, and returns
    /// where it then stands. A key that has no value, or one that is no numeral, holds zero.
    pub fn increment(&mut self, bucket: Resource<Bucket>, key: String, delta: u64) -> (r: Result<
        u64,
        Error,
    >)
        requires
            old(self).ctx.well_formed(),
        ensures
            *final(final(self).ctx) == *final(old(self).ctx),
            *final(final(self).table) == *final(old(self).table),
            *final(self).table == *old(self).table,
            final(self).ctx.continues(*old(self).ctx),
            match old(self).refuses(bucket) {
                Some(text) => {
                    &&& r matches Err(e) && says(e, text)
                    &&& *final(self).ctx == *old(self).ctx
                },
                None => {
                    let next = counter_after(
                        old(self).rows(),
                        old(self).bucket(bucket),
                        key@,
                        delta,
                    );
                    &&& applied(
                        r,
                        old(self).rows(),
                        final(self).rows(),
                        with_value(
                            old(self).rows(),
                            old(self).bucket(bucket),
                            key@,
                            decimal(next as nat),
                        ),
                    )
                    &&& r matches Ok(n) ==> n == next
                },
            },
    {
        let found = match find_bucket(&*self.table, &bucket) {
            Ok(found) => found,
            Err(e) => {
                return Err(e);
            },
        };
        let name = encode_key(found.name(), key.as_str());
        let mut txn = match begin_update(&mut self.ctx.db) {
            Ok(txn) => txn,
            Err(e) => {
                return Err(e.reported());
            },
        };
        let stored = match draft_get(&txn, TABLE, name.as_str()) {
            Ok(stored) => stored,
            Err(e) => {
                abandon(&mut self.ctx.db, txn);
                return Err(Error::from(e));
            },
        };
        let next: u64 = match &stored {
            Some(text) => advance(Some(text.as_slice()), delta),
            None => advance(None, delta),
        };
        match draft_insert(&mut txn, TABLE, name.as_str(), to_decimal(next).as_slice()) {
            Ok(_) => {},
            Err(e) => {
                abandon(&mut self.ctx.db, txn);
                return Err(Error::from(e));
            },
        }
        assert(draft(txn).remove(TABLE@) =~= old(self).ctx.other_tables());
        match finish_update(&mut self.ctx.db, txn) {
            Ok(_) => Ok(next),
            Err(e) => Err(e),
        }
    }

    /// For each of `keys`, in their order, the key and its value, or `None` where it has none.
    pub fn get_many(&mut self, bucket: Resource<Bucket>, keys: Vec<String>) -> (r: Result<
        Vec<Option<(String, Vec<u8>)>>,
        Error,
    >)
        requires
            old(self).ctx.well_formed(),
        ensures
            *final(final(self).ctx) == *final(old(self).ctx),
            *final(final(self).table) == *final(old(self).table),
            *final(self).ctx == *old(self).ctx,
            *final(self).table == *old(self).table,
            match old(self).refuses(bucket) {
                Some(text) => r matches Err(e) && says(e, text),
                None => match r {
                    Ok(found) => answers(found@) == values_of(
                        old(self).rows(),
                        old(self).bucket(bucket),
                        texts(keys@),
                    ),
                    Err(e) => reports_read(e),
                },
            },
    {
        let found = match find_bucket(&*self.table, &bucket) {
            Ok(found) => found,
            Err(e) => {
                return Err(e);
            },
        };
        let rows = match begin_lookup(&self.ctx.db) {
            Ok(rows) => rows,
            Err(e) => {
                return Err(e);
            },
        };
        let ghost all = values_of(rows_of(rows), found@, texts(keys@));
        let mut results: Vec<Option<(String, Vec<u8>)>> = Vec::with_capacity(keys.len());
        let mut i: usize = 0;
        while i < keys.len()
            invariant
                old(self).refuses(bucket) is None,
                i <= keys.len(),
                i == results@.len(),
                all == values_of(rows_of(rows), found@, texts(keys@)),
                answers(results@) == all.take(i as int),
            decreases keys.len() - i,
        {
            let name = encode_key(found.name(), keys[i].as_str());
            let value = match rows_get(&rows, name.as_str()) {
                Ok(value) => value,
                Err(e) => {
                    return Err(Error::from(e));
                },
            };
            let ghost before = results@;
            let entry = match value {
                Some(bytes) => Some((keys[i].clone(), bytes)),
                None => None,
            };
            results.push(entry);
            assert(answers(results@) =~= answers(before).push(answer(entry)));
            assert(answer(entry) == all[i as int]);
            assert(answers(results@) =~= all.take(i + 1));
            i = i + 1;
        }
        Ok(results)
    }

    /// Gives each key of `key_values`, one after the other, its value. All of them are given, or
    /// none is.
    pub fn set_many(&mut self, bucket: Resource<Bucket>, key_values: Vec<(String, Vec<u8>)>) -> (r:
        Result<(), Error>)
        requires
            old(self).ctx.well_formed(),
        ensures
            *final(final(self).ctx) == *final(old(self).ctx),
            *final(final(self).table) == *final(old(self).table),
            *final(self).table == *old(self).table,
            final(self).ctx.continues(*old(self).ctx),
            match old(self).refuses(bucket) {
                Some(text) => {
                    &&& r matches Err(e) && says(e, text)
                    &&& *final(self).ctx == *old(self).ctx
                },
                None => applied(
                    r,
                    old(self).rows(),
                    final(self).rows(),
                    with_values(
                        old(self).rows(),
                        old(self).bucket(bucket),
                        pairs(key_values@),
                    ),
                ),
            },
    {
        let found = match find_bucket(&*self.table, &bucket) {
            Ok(found) => found,
            Err(e) => {
                return Err(e);
            },
        };
        let mut txn = match begin_update(&mut self.ctx.db) {
            Ok(txn) => txn,
            Err(e) => {
                return Err(e.reported());
            },
        };
        match draft_pairs(&mut txn, found.name(), &key_values) {
            Ok(_) => {},
            Err(e) => {
                abandon(&mut self.ctx.db, txn);
                return Err(Error::from(e));
            },
        }
        assert(draft(txn).remove(TABLE@) =~= old(self).ctx.other_tables());
        finish_update(&mut self.ctx.db, txn)
    }

    /// Takes the values of `keys` away. All of them are taken away, or none is.
    pub fn delete_many(&mut self, bucket: Resource<Bucket>, keys: Vec<String>) -> (r: Result<
        (),
        Error,
    >)
        requires
            old(self).ctx.well_formed(),
        ensures
            *final(final(self).ctx) == *final(old(self).ctx),
            *final(final(self).table) == *final(old(self).table),
            *final(self).table == *old(self).table,
            final(self).ctx.continues(*old(self).ctx),
            match old(self).refuses(bucket) {
                Some(text) => {
                    &&& r matches Err(e) && says(e, text)
                    &&& *final(self).ctx == *old(self).ctx
                },
                None => applied(
                    r,
                    old(self).rows(),
                    final(self).rows(),
                    without_values(old(self).rows(), old(self).bucket(bucket), texts(keys@)),
                ),
            },
    {
        let found = match find_bucket(&*self.table, &bucket) {
            Ok(found) => found,
            Err(e) => {
                return Err(e);
            },
        };
        let mut txn = match begin_update(&mut self.ctx.db) {
            Ok(txn) => txn,
            Err(e) => {
                return Err(e.reported());
            },
        };
        match draft_removals(&mut txn, found.name(), &keys) {
            Ok(_) => {},
            Err(e) => {
                abandon(&mut self.ctx.db, txn);
                return Err(Error::from(e));
            },
        }
        assert(draft(txn).remove(TABLE@) =~= old(self).ctx.other_tables());
        finish_update(&mut self.ctx.db, txn)
    }
}

} // verus!
