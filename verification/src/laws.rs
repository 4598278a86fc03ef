//! What holds across requests.
//!
//! Each law is stated over the functions that the contracts of the host's methods speak of: the
//! rows before and after a request, and what a request reads of them.

use crate::counter::{capped_sum, counter_value, decimal, decimal_is_read_back, numeral};
use crate::handles::{entries, slot, Bucket};
use crate::host::{bucket_named, is_listing, lists, page_of, refusal, value_of, values_of};
use crate::host::{counter_after, with_value, with_values, without_value, without_values};
use crate::keys::{ascending_is_unique, buckets_are_apart, encoded, encoding_is_injective};
use crate::keys::{names_without_nul_are_apart, overlapping};
use crate::storage::Rows;
use vstd::prelude::*;
use wasmtime::component::{Resource, ResourceTable};

pub mod outcomes;

verus! {

/// A key that was given a value has that value.
pub proof fn value_is_read_back(rows: Rows, bucket: Seq<char>, key: Seq<char>, value: Seq<u8>)
    ensures
        value_of(with_value(rows, bucket, key, value), bucket, key) == Some(value),
{
}

/// A key that lost its value has none.
pub proof fn deleted_value_is_gone(rows: Rows, bucket: Seq<char>, key: Seq<char>)
    ensures
        value_of(without_value(rows, bucket, key), bucket, key) is None,
{
}

/// To give a key a value, or to take it away, changes no other key of the bucket.
pub proof fn other_keys_stay(
    rows: Rows,
    bucket: Seq<char>,
    key: Seq<char>,
    value: Seq<u8>,
    other: Seq<char>,
)
    requires
        other != key,
    ensures
        value_of(with_value(rows, bucket, key, value), bucket, other) == value_of(
            rows,
            bucket,
            other,
        ),
        value_of(without_value(rows, bucket, key), bucket, other) == value_of(rows, bucket, other),
{
    if encoded(bucket, other) == encoded(bucket, key) {
        encoding_is_injective(bucket, other, key);
    }
}

/// The value that a key was given last is the one that it has.
pub proof fn last_value_stays(
    rows: Rows,
    bucket: Seq<char>,
    key: Seq<char>,
    first: Seq<u8>,
    last: Seq<u8>,
)
    ensures
        with_value(with_value(rows, bucket, key, first), bucket, key, last) == with_value(
            rows,
            bucket,
            key,
            last,
        ),
{
    assert(with_value(with_value(rows, bucket, key, first), bucket, key, last) =~= with_value(
        rows,
        bucket,
        key,
        last,
    ));
}

/// To take a value away undoes giving it to a key that had none.
pub proof fn delete_undoes_set(rows: Rows, bucket: Seq<char>, key: Seq<char>, value: Seq<u8>)
    requires
        value_of(rows, bucket, key) is None,
    ensures
        without_value(with_value(rows, bucket, key, value), bucket, key) == rows,
{
    assert(without_value(with_value(rows, bucket, key, value), bucket, key) =~= rows);
}

/// To take the value of a key away that has none changes nothing.
pub proof fn delete_of_nothing_changes_nothing(rows: Rows, bucket: Seq<char>, key: Seq<char>)
    requires
        value_of(rows, bucket, key) is None,
    ensures
        without_value(rows, bucket, key) == rows,
{
    assert(without_value(rows, bucket, key) =~= rows);
}

/// Buckets are isolated: what is set or deleted in one changes neither a value nor a listing of
/// another that does not overlap it.
pub proof fn buckets_are_isolated(
    rows: Rows,
    bucket: Seq<char>,
    key: Seq<char>,
    value: Seq<u8>,
    other: Seq<char>,
)
    requires
        !overlapping(bucket, other),
    ensures
        forall|k: Seq<char>| #[trigger]
            value_of(with_value(rows, bucket, key, value), other, k) == value_of(rows, other, k),
        forall|k: Seq<char>| #[trigger]
            value_of(without_value(rows, bucket, key), other, k) == value_of(rows, other, k),
        forall|keys: Seq<Seq<char>>, start: nat| #[trigger]
            lists(keys, with_value(rows, bucket, key, value), other, start) <==> lists(
                keys,
                rows,
                other,
                start,
            ),
        forall|keys: Seq<Seq<char>>, start: nat| #[trigger]
            lists(keys, without_value(rows, bucket, key), other, start) <==> lists(
                keys,
                rows,
                other,
                start,
            ),
{
    let set = with_value(rows, bucket, key, value);
    let cleared = without_value(rows, bucket, key);
    assert forall|k: Seq<char>|
        value_of(set, other, k) == value_of(rows, other, k) && value_of(cleared, other, k)
            == value_of(rows, other, k) by {
        buckets_are_apart(bucket, other, key, k);
    }
    same_values_same_lists(rows, set, other);
    same_values_same_lists(rows, cleared, other);
}

/// Two different buckets whose names hold no NUL are isolated from each other.
pub proof fn buckets_without_nul_are_isolated(
    rows: Rows,
    bucket: Seq<char>,
    key: Seq<char>,
    value: Seq<u8>,
    other: Seq<char>,
    other_key: Seq<char>,
)
    requires
        bucket != other,
        !bucket.contains('\0'),
        !other.contains('\0'),
    ensures
        value_of(with_value(rows, bucket, key, value), other, other_key) == value_of(
            rows,
            other,
            other_key,
        ),
        value_of(without_value(rows, bucket, key), other, other_key) == value_of(
            rows,
            other,
            other_key,
        ),
{
    names_without_nul_are_apart(bucket, other);
    buckets_are_isolated(rows, bucket, key, value, other);
}

proof fn same_values_same_lists(a: Rows, b: Rows, bucket: Seq<char>)
    requires
        forall|k: Seq<char>| #[trigger] value_of(a, bucket, k) == value_of(b, bucket, k),
    ensures
        forall|keys: Seq<Seq<char>>, start: nat| #[trigger]
            lists(keys, b, bucket, start) <==> lists(keys, a, bucket, start),
{
    assert(forall|all: Seq<Seq<char>>| #[trigger]
        is_listing(all, a, bucket) <==> is_listing(all, b, bucket));
    assert forall|keys: Seq<Seq<char>>, start: nat|
        lists(keys, a, bucket, start) implies #[trigger] lists(keys, b, bucket, start) by {
        let all = choose|all: Seq<Seq<char>>| #[trigger]
            is_listing(all, a, bucket) && keys == page_of(all, start);
        assert(is_listing(all, b, bucket));
    }
    assert forall|keys: Seq<Seq<char>>, start: nat| #[trigger]
        lists(keys, b, bucket, start) implies lists(keys, a, bucket, start) by {
        let all = choose|all: Seq<Seq<char>>| #[trigger]
            is_listing(all, b, bucket) && keys == page_of(all, start);
        assert(is_listing(all, a, bucket));
    }
}

/// Whoever reads all keys of a bucket meets exactly those that have a value.
pub proof fn list_is_complete(keys: Seq<Seq<char>>, rows: Rows, bucket: Seq<char>, key: Seq<char>)
    requires
        lists(keys, rows, bucket, 0),
    ensures
        keys.contains(key) <==> value_of(rows, bucket, key) is Some,
{
    let all = choose|all: Seq<Seq<char>>| #[trigger]
        is_listing(all, rows, bucket) && keys == page_of(all, 0);
    assert(keys =~= all);
}

/// What is listed depends on nothing but the rows, the bucket and where the page starts.
pub proof fn list_is_unique(
    a: Seq<Seq<char>>,
    b: Seq<Seq<char>>,
    rows: Rows,
    bucket: Seq<char>,
    start: nat,
)
    requires
        lists(a, rows, bucket, start),
        lists(b, rows, bucket, start),
    ensures
        a == b,
{
    let all_a = choose|all: Seq<Seq<char>>| #[trigger]
        is_listing(all, rows, bucket) && a == page_of(all, start);
    let all_b = choose|all: Seq<Seq<char>>| #[trigger]
        is_listing(all, rows, bucket) && b == page_of(all, start);
    ascending_is_unique(all_a, all_b);
}

/// The page that starts at a cursor is what is left of the whole list.
pub proof fn page_is_rest_of_list(
    whole: Seq<Seq<char>>,
    page: Seq<Seq<char>>,
    rows: Rows,
    bucket: Seq<char>,
    start: nat,
)
    requires
        lists(whole, rows, bucket, 0),
        lists(page, rows, bucket, start),
    ensures
        page == page_of(whole, start),
{
    let all = choose|all: Seq<Seq<char>>| #[trigger]
        is_listing(all, rows, bucket) && whole == page_of(all, 0);
    assert(whole =~= all);
    assert(lists(page_of(all, start), rows, bucket, start));
    list_is_unique(page, page_of(all, start), rows, bucket, start);
}

/// The empty identifier opens the bucket `default`, as that name itself does.
pub proof fn empty_identifier_is_default()
    ensures
        bucket_named(Seq::empty()) == bucket_named("default"@),
        bucket_named(Seq::empty()) == "default"@,
{
}

/// A counter that was advanced stands where the request said.
pub proof fn counter_is_read_back(rows: Rows, bucket: Seq<char>, key: Seq<char>, delta: u64)
    ensures
        ({
            let next = counter_after(rows, bucket, key, delta);
            let advanced = with_value(rows, bucket, key, decimal(next as nat));
            counter_value(value_of(advanced, bucket, key)) == next
        }),
{
    decimal_is_read_back(counter_after(rows, bucket, key, delta));
}

/// To advance a counter twice is to advance it once by the sum.
pub proof fn increments_add_up(
    rows: Rows,
    bucket: Seq<char>,
    key: Seq<char>,
    first: u64,
    second: u64,
)
    ensures
        ({
            let next = counter_after(rows, bucket, key, first);
            let advanced = with_value(rows, bucket, key, decimal(next as nat));
            counter_after(advanced, bucket, key, second) == counter_after(
                rows,
                bucket,
                key,
                capped_sum(first, second),
            )
        }),
{
    counter_is_read_back(rows, bucket, key, first);
}

/// A key without a value, and one whose value is no numeral, count from zero.
pub proof fn counters_start_at_zero(rows: Rows, bucket: Seq<char>, key: Seq<char>, delta: u64)
    requires
        match value_of(rows, bucket, key) {
            Some(text) => numeral(text) is None,
            None => true,
        },
    ensures
        counter_after(rows, bucket, key, delta) == delta,
{
}

/// After a batch a key has the value of its last pair.
pub proof fn batch_sets_last_pair(
    rows: Rows,
    bucket: Seq<char>,
    pairs: Seq<(Seq<char>, Seq<u8>)>,
    i: int,
)
    requires
        0 <= i < pairs.len(),
        forall|j: int| i < j < pairs.len() ==> (#[trigger] pairs[j]).0 != pairs[i].0,
    ensures
        value_of(with_values(rows, bucket, pairs), bucket, pairs[i].0) == Some(pairs[i].1),
    decreases pairs.len(),
{
    if i < pairs.len() - 1 {
        let rest = pairs.drop_last();
        assert forall|j: int| i < j < rest.len() implies (#[trigger] rest[j]).0 != rest[i].0 by {
            assert(rest[j] == pairs[j]);
        }
        batch_sets_last_pair(rows, bucket, rest, i);
        other_keys_stay(
            with_values(rows, bucket, rest),
            bucket,
            pairs.last().0,
            pairs.last().1,
            pairs[i].0,
        );
    }
}

/// A batch leaves the keys that it does not name as they were.
pub proof fn batch_leaves_other_keys(
    rows: Rows,
    bucket: Seq<char>,
    pairs: Seq<(Seq<char>, Seq<u8>)>,
    key: Seq<char>,
)
    requires
        forall|j: int| 0 <= j < pairs.len() ==> (#[trigger] pairs[j]).0 != key,
    ensures
        value_of(with_values(rows, bucket, pairs), bucket, key) == value_of(rows, bucket, key),
    decreases pairs.len(),
{
    if pairs.len() > 0 {
        let rest = pairs.drop_last();
        assert forall|j: int| 0 <= j < rest.len() implies (#[trigger] rest[j]).0 != key by {
            assert(rest[j] == pairs[j]);
        }
        batch_leaves_other_keys(rows, bucket, rest, key);
        other_keys_stay(
            with_values(rows, bucket, rest),
            bucket,
            pairs.last().0,
            pairs.last().1,
            key,
        );
    }
}

/// A batch of deletions takes away the values of its keys and of no others.
pub proof fn batch_deletes_its_keys(
    rows: Rows,
    bucket: Seq<char>,
    keys: Seq<Seq<char>>,
    key: Seq<char>,
)
    ensures
        value_of(without_values(rows, bucket, keys), bucket, key) == if keys.contains(key) {
            None
        } else {
            value_of(rows, bucket, key)
        },
    decreases keys.len(),
{
    if keys.len() > 0 {
        let rest = keys.drop_last();
        batch_deletes_its_keys(rows, bucket, rest, key);
        if keys.last() == key {
            assert(keys.contains(key));
        } else {
            other_keys_stay(without_values(rows, bucket, rest), bucket, keys.last(), Seq::empty(), key);
            if keys.contains(key) {
                let i = choose|i: int| 0 <= i < keys.len() && keys[i] == key;
                assert(rest[i] == key);
            }
            if rest.contains(key) {
                let i = choose|i: int| 0 <= i < rest.len() && rest[i] == key;
                assert(keys[i] == key);
            }
        }
    }
}

/// Batches change neither a value nor a listing of another bucket that does not overlap theirs.
pub proof fn batches_are_isolated(
    rows: Rows,
    bucket: Seq<char>,
    pairs: Seq<(Seq<char>, Seq<u8>)>,
    keys: Seq<Seq<char>>,
    other: Seq<char>,
)
    requires
        !overlapping(bucket, other),
    ensures
        forall|k: Seq<char>| #[trigger]
            value_of(with_values(rows, bucket, pairs), other, k) == value_of(rows, other, k),
        forall|k: Seq<char>| #[trigger]
            value_of(without_values(rows, bucket, keys), other, k) == value_of(rows, other, k),
        forall|listed: Seq<Seq<char>>, start: nat| #[trigger]
            lists(listed, with_values(rows, bucket, pairs), other, start) <==> lists(
                listed,
                rows,
                other,
                start,
            ),
        forall|listed: Seq<Seq<char>>, start: nat| #[trigger]
            lists(listed, without_values(rows, bucket, keys), other, start) <==> lists(
                listed,
                rows,
                other,
                start,
            ),
    decreases pairs.len() + keys.len(),
{
    if pairs.len() > 0 {
        batches_are_isolated(rows, bucket, pairs.drop_last(), keys, other);
        buckets_are_isolated(
            with_values(rows, bucket, pairs.drop_last()),
            bucket,
            pairs.last().0,
            pairs.last().1,
            other,
        );
    }
    if keys.len() > 0 {
        batches_are_isolated(rows, bucket, pairs, keys.drop_last(), other);
        buckets_are_isolated(
            without_values(rows, bucket, keys.drop_last()),
            bucket,
            keys.last(),
            Seq::empty(),
            other,
        );
    }
    same_values_same_lists(rows, with_values(rows, bucket, pairs), other);
    same_values_same_lists(rows, without_values(rows, bucket, keys), other);
}

/// A batch of one does what the single request does.
pub proof fn batch_of_one_is_single(rows: Rows, bucket: Seq<char>, key: Seq<char>, value: Seq<u8>)
    ensures
        with_values(rows, bucket, seq![(key, value)]) == with_value(rows, bucket, key, value),
        without_values(rows, bucket, seq![key]) == without_value(rows, bucket, key),
        values_of(rows, bucket, seq![key]) == seq![
            match value_of(rows, bucket, key) {
                Some(found) => Some((key, found)),
                None => None,
            },
        ],
{
    reveal_with_fuel(with_values, 2);
    reveal_with_fuel(without_values, 2);
    assert(seq![(key, value)].drop_last() =~= Seq::empty());
    assert(seq![key].drop_last() =~= Seq::empty());
    assert(values_of(rows, bucket, seq![key]) =~= seq![
        match value_of(rows, bucket, key) {
            Some(found) => Some((key, found)),
            None => None,
        },
    ]);
}

/// A batch of reads answers each key, in its place, with the value that the key has.
pub proof fn batch_reads_each_key(rows: Rows, bucket: Seq<char>, keys: Seq<Seq<char>>, i: int)
    requires
        0 <= i < keys.len(),
    ensures
        values_of(rows, bucket, keys).len() == keys.len(),
        values_of(rows, bucket, keys)[i] == match value_of(rows, bucket, keys[i]) {
            Some(value) => Some((keys[i], value)),
            None => None,
        },
{
}

/// Two batches one after the other do what one batch of both does.
pub proof fn batches_join(
    rows: Rows,
    bucket: Seq<char>,
    first: Seq<(Seq<char>, Seq<u8>)>,
    second: Seq<(Seq<char>, Seq<u8>)>,
)
    ensures
        with_values(with_values(rows, bucket, first), bucket, second) == with_values(
            rows,
            bucket,
            first + second,
        ),
    decreases second.len(),
{
    if second.len() == 0 {
        assert(first + second =~= first);
    } else {
        batches_join(rows, bucket, first, second.drop_last());
        assert((first + second).drop_last() =~= first + second.drop_last());
    }
}

/// To open a bucket changes no handle that was open before, and the new one stands for the bucket;
/// to close it again leaves the entries as they were.
pub proof fn handles_come_and_go(
    before: ResourceTable,
    opened: ResourceTable,
    closed: ResourceTable,
    handle: Resource<Bucket>,
    name: Seq<char>,
    other: Resource<Bucket>,
)
    requires
        !entries(before).contains_key(slot(handle)),
        entries(opened) == entries(before).insert(slot(handle), Some(name)),
        entries(closed) == entries(opened).remove(slot(handle)),
        refusal(entries(before), slot(other)) is None,
    ensures
        refusal(entries(opened), slot(handle)) is None,
        entries(opened)[slot(handle)] == Some(name),
        refusal(entries(opened), slot(other)) is None,
        entries(opened)[slot(other)] == entries(before)[slot(other)],
        entries(closed) == entries(before),
{
    assert(entries(closed) =~= entries(before));
}

} // verus!
