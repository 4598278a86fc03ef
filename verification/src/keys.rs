//! How the rows of many buckets share one ordered table.
//!
//! A row is filed under the bucket's name, a NUL and the user's key. Strings
//! are ordered as their code points are, which is also the order of their
//! UTF-8 bytes, so the rows of one bucket lie next to each other in the table.

use vstd::prelude::*;
use vstd::string::*;

verus! {

/// The name under which the row of `key` in `bucket` is filed.
pub open spec fn encoded(bucket: Seq<char>, key: Seq<char>) -> Seq<char> {
    bucket.push('\0') + key
}

/// The name under which the row of `key` in `bucket` is filed: `{bucket}\0{key}`.
pub fn encode_key(bucket: &str, key: &str) -> (name: String)
    ensures
        name@ == encoded(bucket@, key@),
{
    let mut name = bucket_prefix(bucket);
    name.append(key);
    name
}

/// What every name filed for `bucket` starts with: `{bucket}\0`.
pub fn bucket_prefix(bucket: &str) -> (prefix: String)
    ensures
        prefix@ == bucket@.push('\0'),
{
    proof {
        reveal_strlit("\0");
    }
    let mut prefix = bucket.to_owned();
    prefix.append("\0");
    assert(prefix@ =~= bucket@.push('\0'));
    prefix
}

/// The exclusive upper bound of a scan over the names filed for `bucket`: `{bucket}\x01`.
pub fn bucket_range_end(bucket: &str) -> (end: String)
    ensures
        end@ == bucket@.push('\x01'),
{
    proof {
        reveal_strlit("\x01");
    }
    let mut end = bucket.to_owned();
    end.append("\x01");
    assert(end@ =~= bucket@.push('\x01'));
    end
}

/// Whether `a` and `b` agree up to `i` and `a` is the smaller there: it ends, or its character does.
pub open spec fn smaller_at(a: Seq<char>, b: Seq<char>, i: int) -> bool {
    &&& 0 <= i < b.len()
    &&& i <= a.len()
    &&& forall|j: int| 0 <= j < i ==> a[j] == b[j]
    &&& i < a.len() ==> (a[i] as u32) < (b[i] as u32)
}

/// The strict lexicographic order of strings by code point.
pub open spec fn precedes(a: Seq<char>, b: Seq<char>) -> bool {
    exists|i: int| #[trigger] smaller_at(a, b, i)
}

/// Whether `name` lies in the half-open range from `low` to `high`.
pub open spec fn in_range(name: Seq<char>, low: Seq<char>, high: Seq<char>) -> bool {
    &&& low == name || precedes(low, name)
    &&& precedes(name, high)
}

/// Whether each string of `names` precedes every later one.
pub open spec fn ascending(names: Seq<Seq<char>>) -> bool {
    forall|i: int, j: int| 0 <= i < j < names.len() ==> precedes(#[trigger] names[i], #[trigger] names[j])
}

/// No string precedes itself.
pub proof fn precedes_is_irreflexive(a: Seq<char>)
    ensures
        !precedes(a, a),
{
}

/// Of two strings at most one precedes the other.
pub proof fn precedes_is_asymmetric(a: Seq<char>, b: Seq<char>)
    requires
        precedes(a, b),
    ensures
        !precedes(b, a),
{
    let i = choose|i: int| smaller_at(a, b, i);
    if precedes(b, a) {
        let j = choose|j: int| smaller_at(b, a, j);
        if i < j {
            assert(a[i] == b[i]);
        } else if j < i {
            assert(a[j] == b[j]);
        }
    }
}

/// The scan from `{bucket}\0` up to `{bucket}\x01` meets a name if and only if it starts with
/// `{bucket}\0`.
pub proof fn range_is_prefix(bucket: Seq<char>, name: Seq<char>)
    ensures
        in_range(name, bucket.push('\0'), bucket.push('\x01')) <==> bucket.push('\0').is_prefix_of(
            name,
        ),
{
    let low = bucket.push('\0');
    let high = bucket.push('\x01');
    let n = bucket.len() as int;
    if in_range(name, low, high) {
        let j = choose|j: int| smaller_at(name, high, j);
        if low != name {
            let i = choose|i: int| smaller_at(low, name, i);
            if i < n {
                assert(high[i] == low[i]);
                if j < i {
                    assert(high[j] == low[j]);
                    assert(low[j] == name[j]);
                }
            } else if j < n {
                assert(high[j] == low[j]);
                assert(low[j] == name[j]);
            }
            assert(i == n + 1);
        }
        assert(low =~= name.subrange(0, low.len() as int));
    }
    if low.is_prefix_of(name) {
        assert forall|k: int| 0 <= k <= n implies name[k] == low[k] by {
            assert(name.subrange(0, low.len() as int)[k] == name[k]);
        }
        assert(smaller_at(name, high, n));
        if name.len() == low.len() {
            assert(low =~= name);
        } else {
            assert(smaller_at(low, name, n + 1));
        }
    }
}

/// A common prefix does not change the order of two strings.
pub proof fn prefix_keeps_order(prefix: Seq<char>, a: Seq<char>, b: Seq<char>)
    ensures
        precedes(prefix + a, prefix + b) <==> precedes(a, b),
{
    let n = prefix.len() as int;
    if precedes(a, b) {
        let i = choose|i: int| smaller_at(a, b, i);
        assert(smaller_at(prefix + a, prefix + b, n + i));
    }
    if precedes(prefix + a, prefix + b) {
        let i = choose|i: int| smaller_at(prefix + a, prefix + b, i);
        assert forall|j: int| 0 <= j < i - n implies a[j] == b[j] by {
            assert((prefix + a)[n + j] == (prefix + b)[n + j]);
        }
        assert(smaller_at(a, b, i - n));
    }
}

/// In one bucket two keys are filed under one name only if they are the same key.
pub proof fn encoding_is_injective(bucket: Seq<char>, a: Seq<char>, b: Seq<char>)
    requires
        encoded(bucket, a) == encoded(bucket, b),
    ensures
        a == b,
{
    let n = bucket.len() as int + 1;
    assert(a =~= encoded(bucket, a).skip(n));
    assert(b =~= encoded(bucket, b).skip(n));
}

/// Whether some key of `a` could be filed under the name of a key of `b`, or the other way round:
/// the buckets are the same, or the name of one starts with the other's name and a NUL.
pub open spec fn overlapping(a: Seq<char>, b: Seq<char>) -> bool {
    ||| a == b
    ||| a.push('\0').is_prefix_of(b)
    ||| b.push('\0').is_prefix_of(a)
}

/// The names filed for two buckets are apart, whatever the keys, unless the buckets overlap.
pub proof fn buckets_are_apart(a: Seq<char>, b: Seq<char>, key_a: Seq<char>, key_b: Seq<char>)
    requires
        !overlapping(a, b),
    ensures
        encoded(a, key_a) != encoded(b, key_b),
        !a.push('\0').is_prefix_of(encoded(b, key_b)),
{
    let name = encoded(b, key_b);
    assert(a.push('\0').is_prefix_of(encoded(a, key_a))) by {
        assert(a.push('\0') =~= encoded(a, key_a).subrange(0, a.len() as int + 1));
    }
    if a.push('\0').is_prefix_of(name) {
        let low = a.push('\0');
        assert(forall|k: int| 0 <= k < low.len() ==> low[k] == name.subrange(0, low.len() as int)[k]);
        assert(forall|k: int| 0 <= k <= b.len() ==> b.push('\0')[k] == name[k]);
        if a.len() < b.len() {
            assert(low =~= b.subrange(0, low.len() as int));
        } else if b.len() < a.len() {
            assert(b.push('\0') =~= a.subrange(0, b.len() as int + 1)) by {
                assert forall|k: int| 0 <= k <= b.len() implies b.push('\0')[k] == a[k] by {
                    assert(low[k] == name[k]);
                    assert(low[k] == a[k]);
                }
            }
        } else {
            assert(a =~= b) by {
                assert forall|k: int| 0 <= k < a.len() implies a[k] == b[k] by {
                    assert(low[k] == name[k]);
                    assert(b.push('\0')[k] == b[k]);
                }
            }
        }
    }
}

/// Buckets that overlap do share a name: some key of the one is filed under the name of some key of
/// the other.
pub proof fn overlapping_buckets_meet(a: Seq<char>, b: Seq<char>) -> (keys: (Seq<char>, Seq<char>))
    requires
        overlapping(a, b),
    ensures
        encoded(a, keys.0) == encoded(b, keys.1),
{
    if a == b {
        (Seq::empty(), Seq::empty())
    } else if a.push('\0').is_prefix_of(b) {
        let rest = b.push('\0').skip(a.len() as int + 1);
        let low = a.push('\0');
        assert(forall|k: int| 0 <= k < low.len() ==> low[k] == b.subrange(0, low.len() as int)[k]);
        assert(encoded(a, rest) =~= encoded(b, Seq::empty()));
        (rest, Seq::empty())
    } else {
        let rest = a.push('\0').skip(b.len() as int + 1);
        let low = b.push('\0');
        assert(forall|k: int| 0 <= k < low.len() ==> low[k] == a.subrange(0, low.len() as int)[k]);
        assert(encoded(b, rest) =~= encoded(a, Seq::empty()));
        (Seq::empty(), rest)
    }
}

/// Two different bucket names without a NUL do not overlap.
pub proof fn names_without_nul_are_apart(a: Seq<char>, b: Seq<char>)
    requires
        a != b,
        !a.contains('\0'),
        !b.contains('\0'),
    ensures
        !overlapping(a, b),
{
    if a.push('\0').is_prefix_of(b) {
        assert(b.subrange(0, a.len() as int + 1)[a.len() as int] == b[a.len() as int]);
    }
    if b.push('\0').is_prefix_of(a) {
        assert(a.subrange(0, b.len() as int + 1)[b.len() as int] == a[b.len() as int]);
    }
}

/// A set of strings has at most one ascending enumeration.
pub proof fn ascending_is_unique(a: Seq<Seq<char>>, b: Seq<Seq<char>>)
    requires
        ascending(a),
        ascending(b),
        forall|name: Seq<char>| #![auto] a.contains(name) <==> b.contains(name),
    ensures
        a == b,
    decreases a.len(),
{
    if a.len() == 0 {
        if b.len() > 0 {
            assert(b.contains(b[0]));
            assert(a.contains(b[0]));
        }
        assert(a =~= b);
    } else {
        assert(a.contains(a[0]));
        assert(b.contains(a[0]));
        let i = choose|i: int| 0 <= i < b.len() && b[i] == a[0];
        assert(b.contains(b[0]));
        assert(a.contains(b[0]));
        let j = choose|j: int| 0 <= j < a.len() && a[j] == b[0];
        if i > 0 && j > 0 {
            precedes_is_asymmetric(a[0], a[j]);
            assert(precedes(b[0], b[i]));
        }
        assert(a[0] == b[0]);
        let ta = a.drop_first();
        let tb = b.drop_first();
        assert forall|name: Seq<char>| #![auto] ta.contains(name) implies tb.contains(name) by {
            tail_membership(a, b, name);
        }
        assert forall|name: Seq<char>| #![auto] tb.contains(name) implies ta.contains(name) by {
            tail_membership(b, a, name);
        }
        ascending_is_unique(ta, tb);
        assert(a =~= seq![a[0]] + ta);
        assert(b =~= seq![b[0]] + tb);
    }
}

proof fn tail_membership(a: Seq<Seq<char>>, b: Seq<Seq<char>>, name: Seq<char>)
    requires
        a.len() > 0,
        b.len() > 0,
        a[0] == b[0],
        ascending(a),
        a.drop_first().contains(name),
        a.contains(name) ==> b.contains(name),
    ensures
        b.drop_first().contains(name),
{
    let k = choose|k: int| 0 <= k < a.drop_first().len() && a.drop_first()[k] == name;
    assert(a[k + 1] == name);
    precedes_is_irreflexive(name);
    let m = choose|m: int| 0 <= m < b.len() && b[m] == name;
    assert(m != 0);
    assert(b.drop_first()[m - 1] == name);
}

} // verus!
