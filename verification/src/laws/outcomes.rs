//! What the requests come to, in terms of rows, names and numbers alone.
//!
//! Each law takes what a contract promises of a call and draws from it what a caller sees: which row
//! is read or written, which number a text stands for, where a page starts.

use crate::counter::{all_digits, capped_sum, counter_value, decimal, decimal_digits, digits_value};
use crate::counter::{numeral, unsigned_part};
use crate::context::{kept_rows, WasiKeyValueRedbCtx, TABLE};
use crate::error::{blames_storage, reports_change, reports_read, says, words_of, Error};
use crate::handles::{deletable, displays, entries, is_full, orphans, parents, slot, Bucket};
use crate::host::{answer, answers, applied, bucket_named, bytes_of, counter_after, drop_refusal};
use crate::host::{dropped, is_listing, lists, page_of, page_start, pairs, texts, value_of};
use crate::host::{values_of, with_value, with_values, without_value, without_values};
use crate::host::WasiKeyValueRedb;
use crate::keys::{ascending, buckets_are_apart, encoded, in_range, precedes};
use crate::keys::{names_without_nul_are_apart, precedes_is_asymmetric, prefix_keeps_order, smaller_at};
use crate::laws::batch_sets_last_pair;
use crate::storage::{idle, opened_from, tables, Rows};
use redb::{CommitError, StorageError, TransactionError};
use vstd::arithmetic::div_mod::{lemma_div_denominator, lemma_small_mod};
use vstd::arithmetic::power::{lemma_pow0, lemma_pow_positive, pow};
use vstd::prelude::*;
use vstd::string::*;
use wasmtime::component::{Resource, ResourceTable, ResourceTableError};

verus! {

/// Ten times a power of ten is the next.
proof fn next_power(e: nat)
    ensures
        pow(10, e + 1) == 10 * pow(10, e),
        pow(10, e) > 0,
{
    reveal(pow);
    lemma_pow_positive(10, e);
}

/// A text of digits stands for the one number, of no more digits, whose digits it shows.
proof fn value_has_digits(text: Seq<u8>, v: nat)
    requires
        all_digits(text),
    ensures
        digits_value(text) == v <==> {
            &&& v < pow(10, text.len())
            &&& forall|i: int|
                0 <= i < text.len() ==> #[trigger] text[i] == 48 + (v as int / pow(
                    10,
                    (text.len() - 1 - i) as nat,
                )) % 10
        },
    decreases text.len(),
{
    lemma_pow0(10);
    if text.len() > 0 {
        let rest = text.drop_last();
        let n = rest.len();
        assert(all_digits(rest)) by {
            assert forall|i: int| 0 <= i < n implies 48 <= #[trigger] rest[i] <= 57 by {
                assert(rest[i] == text[i]);
            }
        }
        value_has_digits(rest, v / 10);
        next_power(n);
        assert(text.last() == text[n as int]);
        assert forall|i: int| 0 <= i < n implies (v as int / 10) / pow(10, (n - 1 - i) as nat)
            == #[trigger] (v as int / pow(10, (n - i) as nat)) by {
            next_power((n - 1 - i) as nat);
            lemma_div_denominator(v as int, 10, pow(10, (n - 1 - i) as nat));
        }
        let shows = forall|i: int|
            0 <= i < text.len() ==> #[trigger] text[i] == 48 + (v as int / pow(
                10,
                (text.len() - 1 - i) as nat,
            )) % 10;
        let rest_shows = forall|i: int|
            0 <= i < rest.len() ==> #[trigger] rest[i] == 48 + ((v / 10) as int / pow(
                10,
                (rest.len() - 1 - i) as nat,
            )) % 10;
        if shows {
            assert forall|i: int| 0 <= i < rest.len() implies #[trigger] rest[i] == 48 + ((v
                / 10) as int / pow(10, (rest.len() - 1 - i) as nat)) % 10 by {
                assert(rest[i] == text[i]);
                assert((v as int / 10) / pow(10, (n - 1 - i) as nat) == v as int / pow(
                    10,
                    (n - i) as nat,
                ));
            }
            assert(text[n as int] == 48 + (v as int / pow(10, 0)) % 10);
        }
        if rest_shows && text.last() == 48 + v % 10 {
            assert forall|i: int| 0 <= i < text.len() implies #[trigger] text[i] == 48 + (v as int
                / pow(10, (text.len() - 1 - i) as nat)) % 10 by {
                if i < n {
                    assert(rest[i] == text[i]);
                    assert((v as int / 10) / pow(10, (n - 1 - i) as nat) == v as int / pow(
                        10,
                        (n - i) as nat,
                    ));
                }
            }
        }
    }
}

/// A text is read as the number `n` if and only if it is one or more digits, after a plus sign or
/// none, and each digit is the one that `n` has at its power of ten.
pub proof fn numeral_is_positional(text: Seq<u8>, digits: Seq<u8>, n: u64)
    requires
        digits == if text.len() > 0 && text[0] == 43 {
            text.skip(1)
        } else {
            text
        },
    ensures
        numeral(text) == Some(n) <==> {
            &&& digits.len() > 0
            &&& n < pow(10, digits.len())
            &&& forall|i: int|
                0 <= i < digits.len() ==> #[trigger] digits[i] == 48 + (n as int / pow(
                    10,
                    (digits.len() - 1 - i) as nat,
                )) % 10
        },
{
    assert(digits =~= unsigned_part(text));
    if all_digits(digits) {
        value_has_digits(digits, n as nat);
    }
}

/// What is written for `n` has, at each power of ten, the digit that `n` has there, and does not start
/// with a zero that could be left out.
pub proof fn decimal_is_positional(n: nat)
    ensures
        decimal(n).len() > 0,
        n < pow(10, decimal(n).len()),
        forall|i: int|
            0 <= i < decimal(n).len() ==> #[trigger] decimal(n)[i] == 48 + (n as int / pow(
                10,
                (decimal(n).len() - 1 - i) as nat,
            )) % 10,
        decimal(n).len() > 1 ==> decimal(n)[0] != 48,
    decreases n,
{
    decimal_digits(n);
    value_has_digits(decimal(n), n);
    if n >= 10 {
        decimal_is_positional(n / 10);
        assert(decimal(n)[0] == decimal(n / 10)[0]);
        if n / 10 >= 10 {
            decimal_digits(n / 10 / 10);
        }
    }
}

/// The sum of the digits of a text, each times its power of ten and `10^e`.
proof fn terms_add_up(text: Seq<u8>, terms: Seq<int>, e: nat, plus: spec_fn(int, int) -> int)
    requires
        all_digits(text),
        terms.len() == text.len(),
        forall|i: int|
            0 <= i < text.len() ==> #[trigger] terms[i] == (text[i] - 48) * pow(
                10,
                (text.len() - 1 - i + e) as nat,
            ),
        forall|a: int, b: int| #[trigger] plus(a, b) == a + b,
    ensures
        terms.fold_left(0, plus) == digits_value(text) * pow(10, e),
    decreases text.len(),
{
    if text.len() > 0 {
        let rest = text.drop_last();
        assert(all_digits(rest)) by {
            assert forall|i: int| 0 <= i < rest.len() implies 48 <= #[trigger] rest[i] <= 57 by {
                assert(rest[i] == text[i]);
            }
        }
        assert forall|i: int| 0 <= i < rest.len() implies #[trigger] terms.drop_last()[i] == (rest[i]
            - 48) * pow(10, (rest.len() - 1 - i + (e + 1)) as nat) by {
            assert(terms.drop_last()[i] == terms[i]);
        }
        terms_add_up(rest, terms.drop_last(), e + 1, plus);
        next_power(e);
        let v = digits_value(rest) as int;
        let d = (text.last() - 48) as int;
        let p = pow(10, e);
        assert(terms.last() == d * p);
        assert(v * (10 * p) + d * p == (10 * v + d) * p) by (nonlinear_arith);
        assert(digits_value(text) == 10 * v + d);
        assert(terms.fold_left(0, plus) == plus(terms.drop_last().fold_left(0, plus), terms.last()));
    } else {
        assert(0 * pow(10, e) == 0);
    }
}

/// A text of digits is read as the sum of its digits, each times its power of ten, where that sum is
/// in range; a plus sign before it makes no difference.
pub proof fn numeral_is_sum_of_powers(text: Seq<u8>, terms: Seq<int>)
    requires
        text.len() > 0,
        forall|i: int| 0 <= i < text.len() ==> 48 <= #[trigger] text[i] <= 57,
        terms.len() == text.len(),
        forall|i: int|
            0 <= i < text.len() ==> #[trigger] terms[i] == (text[i] - 48) * pow(
                10,
                (text.len() - 1 - i) as nat,
            ),
    ensures
        ({
            let sum = terms.fold_left(0, |a: int, b: int| a + b);
            &&& sum <= u64::MAX ==> numeral(text) == Some(sum as u64)
            &&& sum > u64::MAX ==> numeral(text) is None
            &&& numeral(seq![43u8] + text) == numeral(text)
        }),
{
    let plus = |a: int, b: int| a + b;
    terms_add_up(text, terms, 0, plus);
    lemma_pow0(10);
    assert(text[0] != 43);
    assert((seq![43u8] + text).drop_first() =~= text);
    assert(terms.fold_left(0, |a: int, b: int| a + b) == digits_value(text));
}

/// A text that is empty, or holds anything but digits after a plus sign or none, is no number.
pub proof fn other_texts_are_no_numerals(text: Seq<u8>)
    requires
        ({
            ||| text.len() == 0
            ||| text.len() == 1 && text[0] == 43
            ||| exists|i: int|
                0 <= i < text.len() && !(48 <= #[trigger] text[i] <= 57) && !(i == 0 && text[i]
                    == 43)
        }),
    ensures
        numeral(text) is None,
{
    if text.len() > 1 {
        let i = choose|i: int|
            0 <= i < text.len() && !(48 <= #[trigger] text[i] <= 57) && !(i == 0 && text[i] == 43);
        if text[0] == 43 {
            assert(text.drop_first()[i - 1] == text[i]);
        }
    }
}

/// A counter is advanced by adding: a row that is read as a number adds that number, any other row
/// and a missing one add nothing, and the sum stops at the largest number.
pub proof fn advancing_adds(stored: Option<Seq<u8>>, delta: u64, next: u64)
    requires
        next == capped_sum(counter_value(stored), delta),
    ensures
        stored is None ==> next == delta,
        stored matches Some(text) ==> match numeral(text) {
            Some(n) => {
                &&& n + delta <= u64::MAX ==> next as int == n + delta
                &&& n + delta > u64::MAX ==> next == u64::MAX
            },
            None => next == delta,
        },
{
}

/// A counter advances to the number that its row held and `delta` together, or to the largest number
/// where that is out of range. The row held `n` if it was digits, after a plus sign or none, and each
/// was the one that `n` has at its power of ten.
pub proof fn increment_adds_to_the_number(
    rows: Rows,
    bucket: Seq<char>,
    key: Seq<char>,
    delta: u64,
    digits: Seq<u8>,
    n: u64,
    next: u64,
)
    requires
        next == counter_after(rows, bucket, key, delta),
        rows.contains_key(bucket.push('\0') + key),
        ({
            let text = rows[bucket.push('\0') + key];
            digits == if text.len() > 0 && text[0] == 43 {
                text.skip(1)
            } else {
                text
            }
        }),
        digits.len() > 0,
        n < pow(10, digits.len()),
        forall|i: int|
            0 <= i < digits.len() ==> #[trigger] digits[i] == 48 + (n as int / pow(
                10,
                (digits.len() - 1 - i) as nat,
            )) % 10,
    ensures
        next as int == if n + delta <= u64::MAX {
            n + delta
        } else {
            u64::MAX as int
        },
{
    numeral_is_positional(rows[bucket.push('\0') + key], digits, n);
}

/// A counter without a row, or with a row that is no number, advances to `delta`.
pub proof fn increment_starts_from_zero(
    rows: Rows,
    bucket: Seq<char>,
    key: Seq<char>,
    delta: u64,
    next: u64,
)
    requires
        next == counter_after(rows, bucket, key, delta),
        rows.contains_key(bucket.push('\0') + key) ==> numeral(rows[bucket.push('\0') + key]) is None,
    ensures
        next == delta,
{
}

/// An increment that was made wrote the digits of the number that the counter advanced to, without
/// zeros before them, to the row of its bucket and key, and touched no other row. One that failed
/// changed nothing, or did the same.
pub proof fn increment_writes_its_number(
    r: Result<u64, Error>,
    before: Rows,
    after: Rows,
    bucket: Seq<char>,
    key: Seq<char>,
    next: u64,
)
    requires
        applied(r, before, after, with_value(before, bucket, key, decimal(next as nat))),
        r is Ok || after != before,
    ensures
        ({
            let name = bucket.push('\0') + key;
            let text = after[name];
            &&& after == before.insert(name, text)
            &&& text.len() > 0
            &&& text.len() > 1 ==> text[0] != 48
            &&& next < pow(10, text.len())
            &&& forall|i: int|
                0 <= i < text.len() ==> #[trigger] text[i] == 48 + (next as int / pow(
                    10,
                    (text.len() - 1 - i) as nat,
                )) % 10
        }),
{
    decimal_is_positional(next as nat);
    assert(after[bucket.push('\0') + key] == decimal(next as nat));
}

/// A row is filed under the bucket's name, a NUL and the key, character for character.
pub proof fn name_is_bucket_and_key(bucket: Seq<char>, key: Seq<char>)
    ensures
        encoded(bucket, key).len() == bucket.len() + 1 + key.len(),
        encoded(bucket, key).take(bucket.len() as int) == bucket,
        encoded(bucket, key)[bucket.len() as int] == '\0',
        encoded(bucket, key).skip(bucket.len() as int + 1) == key,
{
    assert(encoded(bucket, key).take(bucket.len() as int) =~= bucket);
    assert(encoded(bucket, key).skip(bucket.len() as int + 1) =~= key);
}

/// A non-empty identifier opens the bucket of that very name; the empty one opens `default`.
pub proof fn identifier_is_the_name(
    before: ResourceTable,
    after: ResourceTable,
    identifier: Seq<char>,
    handle: Resource<Bucket>,
)
    requires
        entries(after) == entries(before).insert(slot(handle), Some(bucket_named(identifier))),
    ensures
        identifier.len() > 0 ==> entries(after)[slot(handle)] == Some(identifier),
        identifier.len() == 0 ==> entries(after)[slot(handle)] == Some(
            seq!['d', 'e', 'f', 'a', 'u', 'l', 't'],
        ),
        forall|other: u32|
            other != slot(handle) ==> {
                &&& #[trigger] entries(after).contains_key(other) <==> entries(
                    before,
                ).contains_key(other)
                &&& entries(after)[other] == entries(before)[other]
            },
{
    reveal_strlit("default");
    assert("default"@ =~= seq!['d', 'e', 'f', 'a', 'u', 'l', 't']);
}

/// Two different identifiers, neither of them empty, open buckets of different names.
pub proof fn identifiers_open_different_buckets(a: Seq<char>, b: Seq<char>)
    requires
        a != b,
        a.len() > 0,
        b.len() > 0,
    ensures
        bucket_named(a) != bucket_named(b),
{
}

/// A value that is set through a handle of one identifier is not seen through a handle of another,
/// where neither identifier is empty or holds a NUL.
pub proof fn identifiers_share_no_rows(
    before: Rows,
    a: Seq<char>,
    b: Seq<char>,
    key: Seq<char>,
    value: Seq<u8>,
    other_key: Seq<char>,
)
    requires
        a != b,
        a.len() > 0,
        b.len() > 0,
        !a.contains('\0'),
        !b.contains('\0'),
    ensures
        value_of(with_value(before, bucket_named(a), key, value), bucket_named(b), other_key)
            == value_of(before, bucket_named(b), other_key),
        value_of(with_value(before, bucket_named(a), key, value), bucket_named(a), key) == Some(
            value,
        ),
{
    names_without_nul_are_apart(a, b);
    buckets_are_apart(a, b, key, other_key);
}

/// A handle stands for a bucket where its slot holds one, and then for that one; the rows of a view
/// are those of its context.
pub proof fn handle_stands_for_its_entry<'a>(
    view: WasiKeyValueRedb<'a>,
    ctx: WasiKeyValueRedbCtx,
    table: ResourceTable,
    handle: Resource<Bucket>,
)
    requires
        *view.ctx == ctx,
        *view.table == table,
    ensures
        view.rows() == ctx.rows(),
        match view.refuses(handle) {
            None => {
                &&& entries(table).contains_key(slot(handle))
                &&& entries(table)[slot(handle)] == Some(view.bucket(handle))
            },
            Some(text) => {
                ||| !entries(table).contains_key(slot(handle)) && text == "resource not present"@
                ||| entries(table).contains_key(slot(handle)) && entries(table)[slot(handle)]
                    is None && text == "resource is of another type"@
            },
        },
{
}

/// A read returns the row that is filed under the bucket's name, a NUL and the key.
pub proof fn read_returns_the_row(
    value: Option<Vec<u8>>,
    rows: Rows,
    bucket: Seq<char>,
    key: Seq<char>,
)
    requires
        bytes_of(value) == value_of(rows, bucket, key),
    ensures
        match value {
            Some(bytes) => {
                &&& rows.contains_key(bucket.push('\0') + key)
                &&& bytes@ == rows[bucket.push('\0') + key]
            },
            None => !rows.contains_key(bucket.push('\0') + key),
        },
{
}

/// A key exists if and only if there is a row under the bucket's name, a NUL and the key.
pub proof fn key_exists_where_there_is_a_row(
    found: bool,
    rows: Rows,
    bucket: Seq<char>,
    key: Seq<char>,
)
    requires
        found == value_of(rows, bucket, key) is Some,
    ensures
        found <==> rows.contains_key(bucket.push('\0') + key),
{
}

/// A value that was set is the row under the bucket's name, a NUL and the key; no other row changes.
/// A request that failed changed nothing, or did the same.
pub proof fn set_writes_the_row(
    r: Result<(), Error>,
    before: Rows,
    after: Rows,
    bucket: Seq<char>,
    key: Seq<char>,
    value: Seq<u8>,
)
    requires
        applied(r, before, after, with_value(before, bucket, key, value)),
    ensures
        r is Ok || after != before ==> after == before.insert(bucket.push('\0') + key, value),
{
}

/// A value that was deleted leaves no row under the bucket's name, a NUL and the key; no other row
/// changes. A request that failed changed nothing, or did the same.
pub proof fn delete_removes_the_row(
    r: Result<(), Error>,
    before: Rows,
    after: Rows,
    bucket: Seq<char>,
    key: Seq<char>,
)
    requires
        applied(r, before, after, without_value(before, bucket, key)),
    ensures
        r is Ok || after != before ==> after == before.remove(bucket.push('\0') + key),
{
}

/// A batch of reads answers each key of its argument, in its place, with the key and its row, or with
/// `None` where the key has none.
pub proof fn get_many_answers_every_key(
    found: Vec<Option<(String, Vec<u8>)>>,
    rows: Rows,
    bucket: Seq<char>,
    keys: Vec<String>,
)
    requires
        answers(found@) == values_of(rows, bucket, texts(keys@)),
    ensures
        found@.len() == keys@.len(),
        forall|i: int|
            0 <= i < keys@.len() ==> match #[trigger] found@[i] {
                Some((key, value)) => {
                    &&& key@ == keys@[i]@
                    &&& rows.contains_key(bucket.push('\0') + keys@[i]@)
                    &&& value@ == rows[bucket.push('\0') + keys@[i]@]
                },
                None => !rows.contains_key(bucket.push('\0') + keys@[i]@),
            },
{
    assert(answers(found@).len() == found@.len());
    assert(values_of(rows, bucket, texts(keys@)).len() == keys@.len());
    assert forall|i: int| 0 <= i < keys@.len() implies match #[trigger] found@[i] {
        Some((key, value)) => {
            &&& key@ == keys@[i]@
            &&& rows.contains_key(bucket.push('\0') + keys@[i]@)
            &&& value@ == rows[bucket.push('\0') + keys@[i]@]
        },
        None => !rows.contains_key(bucket.push('\0') + keys@[i]@),
    } by {
        assert(answers(found@)[i] == answer(found@[i]));
        assert(texts(keys@)[i] == keys@[i]@);
    }
}

/// To set pairs does not change a row that they do not name.
proof fn unnamed_row_stays(
    rows: Rows,
    bucket: Seq<char>,
    pairs: Seq<(Seq<char>, Seq<u8>)>,
    name: Seq<char>,
)
    requires
        forall|i: int|
            0 <= i < pairs.len() ==> name != bucket.push('\0') + (#[trigger] pairs[i]).0,
    ensures
        with_values(rows, bucket, pairs).contains_key(name) == rows.contains_key(name),
        with_values(rows, bucket, pairs)[name] == rows[name],
    decreases pairs.len(),
{
    if pairs.len() > 0 {
        let rest = pairs.drop_last();
        assert forall|i: int| 0 <= i < rest.len() implies name != bucket.push('\0') + (
        #[trigger] rest[i]).0 by {
            assert(rest[i] == pairs[i]);
        }
        assert(name != bucket.push('\0') + pairs[pairs.len() - 1].0);
        unnamed_row_stays(rows, bucket, rest, name);
    }
}

/// A batch that was set gives each key of its argument the value of the key's last pair there, and
/// changes no row of another name. One that failed changed nothing, or did the same.
pub proof fn set_many_writes_every_pair(
    r: Result<(), Error>,
    before: Rows,
    after: Rows,
    bucket: Seq<char>,
    key_values: Vec<(String, Vec<u8>)>,
)
    requires
        applied(r, before, after, with_values(before, bucket, pairs(key_values@))),
        r is Ok || after != before,
    ensures
        forall|i: int|
            0 <= i < key_values@.len() && (forall|j: int|
                i < j < key_values@.len() ==> (#[trigger] key_values@[j]).0@
                    != key_values@[i].0@) ==> {
                &&& after.contains_key(bucket.push('\0') + (#[trigger] key_values@[i]).0@)
                &&& after[bucket.push('\0') + key_values@[i].0@] == key_values@[i].1@
            },
        forall|name: Seq<char>|
            (forall|i: int|
                0 <= i < key_values@.len() ==> name != bucket.push('\0') + (
                #[trigger] key_values@[i]).0@) ==> {
                &&& #[trigger] after.contains_key(name) == before.contains_key(name)
                &&& after[name] == before[name]
            },
{
    let all = pairs(key_values@);
    assert(all.len() == key_values@.len());
    assert forall|i: int| 0 <= i < all.len() implies #[trigger] all[i] == (
        key_values@[i].0@,
        key_values@[i].1@,
    ) by {}
    assert forall|i: int|
        0 <= i < key_values@.len() && (forall|j: int|
            i < j < key_values@.len() ==> (#[trigger] key_values@[j]).0@
                != key_values@[i].0@) implies {
        &&& after.contains_key(bucket.push('\0') + (#[trigger] key_values@[i]).0@)
        &&& after[bucket.push('\0') + key_values@[i].0@] == key_values@[i].1@
    } by {
        assert(all[i].0 == key_values@[i].0@);
        assert forall|j: int| i < j < all.len() implies (#[trigger] all[j]).0 != all[i].0 by {
            assert(key_values@[j].0@ != key_values@[i].0@);
        }
        batch_sets_last_pair(before, bucket, all, i);
        assert(value_of(after, bucket, all[i].0) == Some(all[i].1));
    }
    assert forall|name: Seq<char>|
        (forall|i: int|
            0 <= i < key_values@.len() ==> name != bucket.push('\0') + (
            #[trigger] key_values@[i]).0@) implies {
        &&& #[trigger] after.contains_key(name) == before.contains_key(name)
        &&& after[name] == before[name]
    } by {
        assert forall|i: int| 0 <= i < all.len() implies name != bucket.push('\0') + (
        #[trigger] all[i]).0 by {
            assert(name != bucket.push('\0') + key_values@[i].0@);
        }
        unnamed_row_stays(before, bucket, all, name);
    }
}

/// To delete keys takes away the rows that they name, and changes no other.
proof fn named_rows_go(rows: Rows, bucket: Seq<char>, keys: Seq<Seq<char>>, name: Seq<char>)
    ensures
        without_values(rows, bucket, keys).contains_key(name) <==> {
            &&& rows.contains_key(name)
            &&& forall|i: int|
                0 <= i < keys.len() ==> name != bucket.push('\0') + #[trigger] keys[i]
        },
        without_values(rows, bucket, keys).contains_key(name) ==> without_values(
            rows,
            bucket,
            keys,
        )[name] == rows[name],
    decreases keys.len(),
{
    if keys.len() > 0 {
        let rest = keys.drop_last();
        named_rows_go(rows, bucket, rest, name);
        if without_values(rows, bucket, keys).contains_key(name) {
            assert forall|i: int| 0 <= i < keys.len() implies name != bucket.push('\0')
                + #[trigger] keys[i] by {
                if i < rest.len() {
                    assert(rest[i] == keys[i]);
                }
            }
        }
        if forall|i: int| 0 <= i < keys.len() ==> name != bucket.push('\0') + #[trigger] keys[i] {
            assert(name != bucket.push('\0') + keys[keys.len() - 1]);
            assert forall|i: int| 0 <= i < rest.len() implies name != bucket.push('\0')
                + #[trigger] rest[i] by {
                assert(rest[i] == keys[i]);
            }
        }
    }
}

/// A batch that was deleted leaves exactly the rows under no name of its keys, unchanged. One that
/// failed changed nothing, or did the same.
pub proof fn delete_many_removes_every_key(
    r: Result<(), Error>,
    before: Rows,
    after: Rows,
    bucket: Seq<char>,
    keys: Vec<String>,
)
    requires
        applied(r, before, after, without_values(before, bucket, texts(keys@))),
        r is Ok || after != before,
    ensures
        forall|name: Seq<char>|
            #[trigger] after.contains_key(name) <==> {
                &&& before.contains_key(name)
                &&& forall|i: int|
                    0 <= i < keys@.len() ==> name != bucket.push('\0') + (#[trigger] keys@[i])@
            },
        forall|name: Seq<char>| #[trigger] after.contains_key(name) ==> after[name] == before[name],
{
    let all = texts(keys@);
    assert(all.len() == keys@.len());
    assert forall|name: Seq<char>|
        #[trigger] after.contains_key(name) <==> {
            &&& before.contains_key(name)
            &&& forall|i: int|
                0 <= i < keys@.len() ==> name != bucket.push('\0') + (#[trigger] keys@[i])@
        } by {
        named_rows_go(before, bucket, all, name);
        if after.contains_key(name) {
            assert forall|i: int| 0 <= i < keys@.len() implies name != bucket.push('\0') + (
            #[trigger] keys@[i])@ by {
                assert(all[i] == keys@[i]@);
            }
        }
        if forall|i: int|
            0 <= i < keys@.len() ==> name != bucket.push('\0') + (#[trigger] keys@[i])@ {
            assert forall|i: int| 0 <= i < all.len() implies name != bucket.push('\0')
                + #[trigger] all[i] by {
                assert(all[i] == keys@[i]@);
            }
        }
    }
    assert forall|name: Seq<char>| #[trigger] after.contains_key(name) implies after[name]
        == before[name] by {
        named_rows_go(before, bucket, all, name);
    }
}

/// A page starts at the number in the cursor, or at the first key without one.
pub proof fn cursor_is_where_the_page_starts(cursor: Option<u64>)
    ensures
        cursor is None ==> page_start(cursor) == 0,
        cursor matches Some(n) ==> {
            &&& page_start(cursor) == n as int % (usize::MAX + 1)
            &&& n <= usize::MAX ==> page_start(cursor) == n
        },
{
    if let Some(n) = cursor {
        if n <= usize::MAX {
            lemma_small_mod(n as nat, (usize::MAX + 1) as nat);
        } else {
            assert(usize::BITS == 32 ==> (n as usize) == n % 0x1_0000_0000) by (bit_vector);
            assert(usize::MAX == 0xffff_ffff);
        }
    }
}

/// A character is its code point.
proof fn code_point(c: char)
    ensures
        (c as u32) as int == c as int,
{
}

/// One string comes before another where it is a proper beginning of the other, or has the smaller
/// code point at the first place in which they differ.
pub proof fn order_is_by_code_point(a: Seq<char>, b: Seq<char>)
    ensures
        precedes(a, b) <==> {
            ||| a.len() < b.len() && b.take(a.len() as int) == a
            ||| exists|i: int|
                0 <= i < a.len() && i < b.len() && a.take(i) == b.take(i) && (
                #[trigger] a[i] as int) < (b[i] as int)
        },
{
    if precedes(a, b) {
        let i = choose|i: int| smaller_at(a, b, i);
        if i == a.len() {
            assert(b.take(a.len() as int) =~= a);
        } else {
            assert(a.take(i) =~= b.take(i));
            code_point(a[i]);
            code_point(b[i]);
            assert((a[i] as int) < (b[i] as int));
        }
    }
    if a.len() < b.len() && b.take(a.len() as int) == a {
        assert forall|j: int| 0 <= j < a.len() implies a[j] == b[j] by {
            assert(b.take(a.len() as int)[j] == b[j]);
        }
        assert(smaller_at(a, b, a.len() as int));
    }
    if exists|i: int|
        0 <= i < a.len() && i < b.len() && a.take(i) == b.take(i) && (#[trigger] a[i] as int) < (
        b[i] as int) {
        let i = choose|i: int|
            0 <= i < a.len() && i < b.len() && a.take(i) == b.take(i) && (#[trigger] a[i] as int)
                < (b[i] as int);
        assert forall|j: int| 0 <= j < i implies a[j] == b[j] by {
            assert(a.take(i)[j] == b.take(i)[j]);
        }
        code_point(a[i]);
        code_point(b[i]);
        assert(smaller_at(a, b, i));
    }
}

/// A page holds, of the keys whose rows are filed under the bucket's name, a NUL and the key, in
/// ascending order and each once, those from the place that the cursor gives on, to the last.
pub proof fn page_starts_at_the_cursor(
    keys: Vec<String>,
    rows: Rows,
    bucket: Seq<char>,
    cursor: Option<u64>,
    n: int,
) -> (whole: Seq<Seq<char>>)
    requires
        lists(texts(keys@), rows, bucket, page_start(cursor)),
        n == match cursor {
            Some(position) => position as int,
            None => 0,
        },
        n <= usize::MAX,
    ensures
        forall|i: int, j: int|
            0 <= i < j < whole.len() ==> precedes(#[trigger] whole[i], #[trigger] whole[j]),
        forall|key: Seq<char>| #[trigger]
            whole.contains(key) <==> rows.contains_key(bucket.push('\0') + key),
        keys@.len() == if n <= whole.len() {
            whole.len() - n
        } else {
            0
        },
        forall|i: int| 0 <= i < keys@.len() ==> (#[trigger] keys@[i])@ == whole[n + i],
{
    let start = page_start(cursor);
    let whole = choose|all: Seq<Seq<char>>| #[trigger]
        is_listing(all, rows, bucket) && texts(keys@) == page_of(all, start);
    assert(texts(keys@).len() == keys@.len());
    assert forall|i: int| 0 <= i < keys@.len() implies (#[trigger] keys@[i])@ == whole[n + i] by {
        assert(texts(keys@)[i] == keys@[i]@);
    }
    assert forall|key: Seq<char>| #[trigger] whole.contains(key) <==> rows.contains_key(
        bucket.push('\0') + key,
    ) by {
        assert(whole.contains(key) <==> value_of(rows, bucket, key) is Some);
    }
    whole
}

/// Names lie in a range from the lower bound, with it, up to the upper one, without it, and are
/// ascending where each comes before every later one.
pub proof fn ranges_are_half_open(
    name: Seq<char>,
    low: Seq<char>,
    high: Seq<char>,
    names: Seq<Seq<char>>,
)
    ensures
        in_range(name, low, high) <==> !precedes(name, low) && precedes(name, high),
        ascending(names) <==> forall|i: int, j: int|
            0 <= i < j < names.len() ==> precedes(#[trigger] names[i], #[trigger] names[j]),
{
    strings_are_comparable(name, low);
}

/// Of two strings, one comes before the other, or they are the same; never more than one of these.
pub proof fn strings_are_comparable(a: Seq<char>, b: Seq<char>)
    ensures
        a == b || precedes(a, b) || precedes(b, a),
        a == b ==> !precedes(a, b),
        precedes(a, b) ==> !precedes(b, a),
    decreases a.len(),
{
    if precedes(a, b) {
        precedes_is_asymmetric(a, b);
    }
    if a.len() == 0 {
        if b.len() > 0 {
            assert(smaller_at(a, b, 0));
        } else {
            assert(a =~= b);
        }
    } else if b.len() == 0 {
        assert(smaller_at(b, a, 0));
    } else if (a[0] as u32) < (b[0] as u32) {
        assert(smaller_at(a, b, 0));
    } else if (b[0] as u32) < (a[0] as u32) {
        assert(smaller_at(b, a, 0));
    } else {
        code_point(a[0]);
        code_point(b[0]);
        let head = seq![a[0]];
        strings_are_comparable(a.drop_first(), b.drop_first());
        prefix_keeps_order(head, a.drop_first(), b.drop_first());
        prefix_keeps_order(head, b.drop_first(), a.drop_first());
        assert(a =~= head + a.drop_first());
        assert(b =~= head + b.drop_first());
    }
}

/// To close a slot frees it and no other, unless it is free or its entry has children; the answer
/// tells these cases apart.
pub proof fn closing_frees_the_slot(before: ResourceTable, after: ResourceTable, s: u32)
    requires
        dropped(before, after, s),
    ensures
        entries(before).contains_key(s) && !parents(before).contains(s) ==> {
            &&& entries(after) == entries(before).remove(s)
            &&& !is_full(after)
            &&& orphans(after) == orphans(before)
            &&& exists|parent: u32| parents(after) == #[trigger] parents(before).remove(parent)
        },
        !entries(before).contains_key(s) || parents(before).contains(s) ==> after == before,
        !entries(before).contains_key(s) ==> drop_refusal(before, s) == Some(
            "resource not present"@,
        ),
        entries(before).contains_key(s) && parents(before).contains(s) ==> drop_refusal(before, s)
            == Some("resource has children"@),
        entries(before).contains_key(s) && !parents(before).contains(s) ==> match entries(
            before,
        )[s] {
            Some(_) => drop_refusal(before, s) is None,
            None => drop_refusal(before, s) == Some("resource is of another type"@),
        },
        deletable(before, s) <==> parents(before).contains(s) || !orphans(before).contains(s),
{
}

/// A request that failed gives the words of a failure that the database reported: that a transaction
/// could not be begun, that the storage failed, or, for a change, that it could not be committed.
pub proof fn failures_are_reported(e: Error)
    ensures
        reports_read(e) <==> (e matches Error::Other(s) && {
            ||| exists|f: TransactionError| to_string_from_display_ensures::<TransactionError>(&f, s)
            ||| exists|f: StorageError| to_string_from_display_ensures::<StorageError>(&f, s)
        }),
        reports_change(e) <==> (e matches Error::Other(s) && {
            ||| exists|f: TransactionError| to_string_from_display_ensures::<TransactionError>(&f, s)
            ||| exists|f: StorageError| to_string_from_display_ensures::<StorageError>(&f, s)
            ||| exists|f: CommitError| to_string_from_display_ensures::<CommitError>(&f, s)
        }),
{
}

/// A failure that blames the storage gives the words of a failure of the storage.
pub proof fn blame_is_in_the_words<E: core::fmt::Display>(failure: E, s: String)
    requires
        blames_storage(failure),
        to_string_from_display_ensures::<E>(&failure, s),
    ensures
        exists|f: StorageError| to_string_from_display_ensures::<StorageError>(&f, s),
{
    assert(words_of::<StorageError>(Error::Other(s)));
}

/// A change that failed is reported, and was made only where it is the commit that failed.
pub proof fn only_a_failed_commit_is_unsure(
    e: Error,
    before: Rows,
    after: Rows,
    updated: Rows,
)
    requires
        applied(Err::<(), Error>(e), before, after, updated),
    ensures
        reports_change(e),
        after == before || after == updated,
        after != before ==> (e matches Error::Other(s) && exists|f: CommitError|
            to_string_from_display_ensures::<CommitError>(&f, s)),
{
}

/// A refusal is said in its own words.
pub proof fn refusals_are_verbatim(e: Error, text: Seq<char>)
    ensures
        says(e, text) <==> (e matches Error::Other(s) && s@ == text),
{
}

/// The words of a refusal of a resource table are the ones given.
pub proof fn table_refusals_are_verbatim(e: ResourceTableError, text: Seq<char>, s: String)
    requires
        displays(e, text),
        to_string_from_display_ensures::<ResourceTableError>(&e, s),
    ensures
        s@ == text,
{
}

/// The rows of all buckets are the table `wasi_kv`, or none where there is no such table, and the other
/// tables are all that go by another name.
pub proof fn rows_are_one_table(
    ctx: WasiKeyValueRedbCtx,
    name: Seq<char>,
    path: std::path::PathBuf,
)
    ensures
        ({
            let held = tables(ctx.database());
            let own = seq!['w', 'a', 's', 'i', '_', 'k', 'v'];
            &&& TABLE@ == own
            &&& ctx.well_formed() <==> idle(ctx.database()) && held.contains_key(own)
            &&& ctx.kept_in(path) <==> opened_from(ctx.database(), path)
            &&& ctx.has_table() <==> held.contains_key(own)
            &&& ctx.rows() == kept_rows(held)
            &&& held.contains_key(own) ==> ctx.rows() == held[own]
            &&& !held.contains_key(own) ==> ctx.rows() == Map::<Seq<char>, Seq<u8>>::empty()
            &&& ctx.other_tables().contains_key(name) <==> held.contains_key(name) && name != own
            &&& ctx.other_tables().contains_key(name) ==> ctx.other_tables()[name] == held[name]
        }),
{
    reveal_strlit("wasi_kv");
    assert(TABLE@ =~= seq!['w', 'a', 's', 'i', '_', 'k', 'v']);
}

/// Between requests a context is idle and has its table, and a request leaves the tables of other
/// names and the files as they were.
pub proof fn requests_keep_the_rest(
    before: WasiKeyValueRedbCtx,
    after: WasiKeyValueRedbCtx,
    name: Seq<char>,
    path: std::path::PathBuf,
)
    requires
        after.continues(before),
    ensures
        after.well_formed(),
        idle(after.database()),
        tables(after.database()).contains_key(seq!['w', 'a', 's', 'i', '_', 'k', 'v']),
        name != seq!['w', 'a', 's', 'i', '_', 'k', 'v'] ==> {
            &&& tables(after.database()).contains_key(name) <==> tables(
                before.database(),
            ).contains_key(name)
            &&& tables(after.database()).contains_key(name) ==> tables(after.database())[name]
                == tables(before.database())[name]
        },
        opened_from(before.database(), path) ==> opened_from(after.database(), path),
{
    rows_are_one_table(before, name, path);
    rows_are_one_table(after, name, path);
    assert(before.kept_in(path) ==> after.kept_in(path));
}

} // verus!
