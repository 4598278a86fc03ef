//! Counters: unsigned numbers kept as decimal text.

use vstd::prelude::*;

verus! {

/// The decimal text of `n`, without leading zeros.
pub open spec fn decimal(n: nat) -> Seq<u8>
    decreases n,
{
    if n < 10 {
        seq![(48 + n) as u8]
    } else {
        decimal(n / 10).push((48 + n % 10) as u8)
    }
}

/// Whether every byte of `text` is a decimal digit.
pub open spec fn all_digits(text: Seq<u8>) -> bool {
    forall|i: int| 0 <= i < text.len() ==> 48 <= #[trigger] text[i] <= 57
}

/// The number that a text of digits stands for.
pub open spec fn digits_value(text: Seq<u8>) -> nat
    recommends
        all_digits(text),
    decreases text.len(),
{
    if text.len() == 0 {
        0
    } else {
        10 * digits_value(text.drop_last()) + (text.last() - 48) as nat
    }
}

/// The digits of a numeral: the text, without the plus sign that it may start with.
pub open spec fn unsigned_part(text: Seq<u8>) -> Seq<u8> {
    if text.len() > 0 && text[0] == 43 {
        text.drop_first()
    } else {
        text
    }
}

/// The number in `text`: one or more digits, after an optional plus sign, that stand for a number
/// below `2^64`. `None` for every other text.
pub open spec fn numeral(text: Seq<u8>) -> Option<u64> {
    let digits = unsigned_part(text);
    if digits.len() > 0 && all_digits(digits) && digits_value(digits) <= u64::MAX {
        Some(digits_value(digits) as u64)
    } else {
        None
    }
}

/// The value of a counter of which `stored` is the row: zero when there is no row, or when the row
/// is no numeral.
pub open spec fn counter_value(stored: Option<Seq<u8>>) -> u64 {
    match stored {
        Some(text) => match numeral(text) {
            Some(n) => n,
            None => 0,
        },
        None => 0,
    }
}

/// The sum of `a` and `b`, or the largest number where the sum is out of range.
pub open spec fn capped_sum(a: u64, b: u64) -> u64 {
    if a + b > u64::MAX {
        u64::MAX
    } else {
        (a + b) as u64
    }
}

proof fn value_grows(text: Seq<u8>, n: int)
    requires
        0 <= n <= text.len(),
    ensures
        digits_value(text.take(n)) <= digits_value(text),
    decreases text.len() - n,
{
    if n < text.len() {
        value_grows(text, n + 1);
        assert(text.take(n + 1).drop_last() =~= text.take(n));
    } else {
        assert(text.take(n) =~= text);
    }
}

/// Reads a numeral.
pub fn parse_numeral(text: &[u8]) -> (n: Option<u64>)
    ensures
        n == numeral(text@),
{
    let start: usize = if text.len() > 0 && text[0] == 43 {
        1
    } else {
        0
    };
    let ghost digits = unsigned_part(text@);
    assert(digits =~= text@.skip(start as int));
    if text.len() == start {
        return None;
    }
    let mut value: u64 = 0;
    let mut i: usize = start;
    assert(digits.take(0) =~= Seq::<u8>::empty());
    while i < text.len()
        invariant
            start <= i <= text.len(),
            digits == unsigned_part(text@),
            digits == text@.skip(start as int),
            text.len() > start,
            all_digits(digits.take(i - start)),
            value == digits_value(digits.take(i - start)),
        decreases text.len() - i,
    {
        let byte: u8 = text[i];
        assert(digits[i - start] == byte);
        if byte < 48 || byte > 57 {
            return None;
        }
        assert(digits.take(i - start + 1).drop_last() =~= digits.take(i - start));
        proof {
            value_grows(digits, i - start + 1);
        }
        value = match value.checked_mul(10) {
            Some(tenfold) => match tenfold.checked_add((byte - 48) as u64) {
                Some(next) => next,
                None => {
                    return None;
                },
            },
            None => {
                return None;
            },
        };
        assert(all_digits(digits.take(i - start + 1))) by {
            assert forall|k: int| 0 <= k < i - start + 1 implies 48 <= #[trigger] digits.take(
                i - start + 1,
            )[k] <= 57 by {
                if k < i - start {
                    assert(digits.take(i - start)[k] == digits[k]);
                }
            }
        }
        i = i + 1;
    }
    assert(digits.take(i - start) =~= digits);
    Some(value)
}

/// The decimal text of `n`.
pub fn to_decimal(n: u64) -> (text: Vec<u8>)
    ensures
        text@ == decimal(n as nat),
    decreases n,
{
    if n < 10 {
        let mut text: Vec<u8> = Vec::new();
        text.push(48 + n as u8);
        assert(text@ =~= decimal(n as nat));
        text
    } else {
        let mut text = to_decimal(n / 10);
        text.push(48 + (n % 10) as u8);
        text
    }
}

/// The value that a counter takes when it is advanced by `delta`, with `stored` as its row.
pub fn advance(stored: Option<&[u8]>, delta: u64) -> (next: u64)
    ensures
        next == capped_sum(
            counter_value(
                match stored {
                    Some(text) => Some(text@),
                    None => None,
                },
            ),
            delta,
        ),
{
    let current: u64 = match stored {
        Some(text) => match parse_numeral(text) {
            Some(n) => n,
            None => 0,
        },
        None => 0,
    };
    current.saturating_add(delta)
}

/// What is written for a counter is read back as the same number.
pub proof fn decimal_is_read_back(n: u64)
    ensures
        numeral(decimal(n as nat)) == Some(n),
{
    decimal_digits(n as nat);
    assert(decimal(n as nat)[0] != 43);
}

/// What is written for a counter is digits, and they stand for its number.
pub proof fn decimal_digits(n: nat)
    ensures
        decimal(n).len() > 0,
        all_digits(decimal(n)),
        digits_value(decimal(n)) == n,
    decreases n,
{
    if n < 10 {
        assert(decimal(n).drop_last() =~= Seq::<u8>::empty());
        assert(digits_value(Seq::<u8>::empty()) == 0);
    } else {
        decimal_digits(n / 10);
        assert(decimal(n).drop_last() =~= decimal(n / 10));
        assert forall|i: int| 0 <= i < decimal(n).len() implies 48 <= #[trigger] decimal(n)[i]
            <= 57 by {
            if i < decimal(n / 10).len() {
                assert(decimal(n)[i] == decimal(n / 10)[i]);
            }
        }
    }
}

} // verus!
