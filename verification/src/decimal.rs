//! Decimal integers: their spelling, and reading them back.

use vstd::prelude::*;

verus! {

/// Whether `b` is an ASCII decimal digit.
pub open spec fn is_digit(b: u8) -> bool {
    48 <= b <= 57
}

/// Whether every byte of `s` is an ASCII decimal digit.
pub open spec fn all_digits(s: Seq<u8>) -> bool {
    forall|i: int| 0 <= i < s.len() ==> is_digit(#[trigger] s[i])
}

/// The number that the decimal digits `s` spell, most significant first.
pub open spec fn digits_value(s: Seq<u8>) -> nat
    decreases s.len(),
{
    if s.len() == 0 {
        0
    } else {
        digits_value(s.drop_last()) * 10 + (s.last() - 48) as nat
    }
}

/// The shortest decimal spelling of `n`, without sign.
pub open spec fn digits_of(n: nat) -> Seq<u8>
    decreases n,
{
    if n < 10 {
        seq![(48 + n) as u8]
    } else {
        digits_of(n / 10).push((48 + n % 10) as u8)
    }
}

/// The decimal spelling of `i`, with a leading `-` when it is negative.
pub open spec fn decimal_of(i: int) -> Seq<u8> {
    if i < 0 {
        seq![45u8] + digits_of((-i) as nat)
    } else {
        digits_of(i as nat)
    }
}

/// The characters of an ASCII byte string.
pub open spec fn ascii_chars(s: Seq<u8>) -> Seq<char> {
    s.map_values(|b: u8| b as char)
}

/// What reading `s` as a signed 64-bit decimal integer gives: an optional
/// `+` or `-`, then at least one digit, and a value that fits in `i64`.
pub open spec fn parse_i64_spec(s: Seq<u8>) -> Option<i64> {
    if s.len() == 0 {
        None
    } else {
        let signed = s[0] == 43u8 || s[0] == 45u8;
        let digits = if signed { s.drop_first() } else { s };
        if digits.len() == 0 || !all_digits(digits) {
            None
        } else {
            let v = digits_value(digits);
            let x: int = if s[0] == 45u8 { -v } else { v as int };
            if i64::MIN <= x <= i64::MAX {
                Some(x as i64)
            } else {
                None
            }
        }
    }
}

/// The digits of any number are digits, and there is at least one.
pub proof fn lemma_digits_of_shape(n: nat)
    ensures
        digits_of(n).len() >= 1,
        all_digits(digits_of(n)),
        digits_value(digits_of(n)) == n,
    decreases n,
{
    if n < 10 {
        assert(digits_of(n).drop_last() =~= Seq::<u8>::empty());
        assert(digits_value(Seq::<u8>::empty()) == 0);
        assert(digits_of(n).last() == (48 + n) as u8);
    } else {
        lemma_digits_of_shape(n / 10);
        let d = digits_of(n / 10);
        assert(digits_of(n).drop_last() =~= d);
        assert(digits_of(n).last() == (48 + n % 10) as u8);
        assert(n == (n / 10) * 10 + n % 10);
        let last = digits_of(n).last();
        assert(last - 48 == n % 10);
        assert(digits_value(digits_of(n)) == digits_value(d) * 10 + (last - 48) as nat);
    }
}

/// Reading the decimal spelling of a 64-bit integer gives it back.
pub proof fn lemma_parse_decimal_of(i: i64)
    ensures
        parse_i64_spec(decimal_of(i as int)) == Some(i),
{
    if i < 0 {
        let m = (-i) as nat;
        lemma_digits_of_shape(m);
        assert((seq![45u8] + digits_of(m)).drop_first() =~= digits_of(m));
    } else {
        lemma_digits_of_shape(i as nat);
        let d = digits_of(i as nat);
        if d[0] == 43u8 || d[0] == 45u8 {
            assert(is_digit(d[0]));
        }
    }
}

/// A longer run of digits never spells a smaller number than its prefix.
proof fn lemma_digits_value_prefix(s: Seq<u8>, i: int, j: int)
    requires
        0 <= i <= j <= s.len(),
        all_digits(s),
    ensures
        digits_value(s.subrange(0, j)) >= digits_value(s.subrange(0, i)),
    decreases j - i,
{
    if i < j {
        lemma_digits_value_prefix(s, i, j - 1);
        assert(s.subrange(0, j).drop_last() =~= s.subrange(0, j - 1));
    }
}

proof fn lemma_non_digit(digits: Seq<u8>, k: int)
    requires
        0 <= k < digits.len(),
        !is_digit(digits[k]),
    ensures
        !all_digits(digits),
{
}

proof fn lemma_digits_step(digits: Seq<u8>, k: int)
    requires
        0 <= k < digits.len(),
    ensures
        digits_value(digits.subrange(0, k + 1)) == digits_value(digits.subrange(0, k)) * 10
            + (digits[k] - 48) as nat,
{
    let next = digits.subrange(0, k + 1);
    assert(next.drop_last() =~= digits.subrange(0, k));
}

proof fn lemma_overflow(acc: u64, d: u64)
    requires
        acc > (9223372036854775808u64 - d) / 10,
        d <= 9,
    ensures
        acc * 10 + d > 9223372036854775808u64,
{
    assert(acc * 10 + d > 9223372036854775808u64) by (nonlinear_arith)
        requires
            acc > (9223372036854775808u64 - d) / 10,
            d <= 9,
    ;
}

proof fn lemma_no_overflow(acc: u64, d: u64)
    requires
        acc <= (9223372036854775808u64 - d) / 10,
        d <= 9,
    ensures
        acc * 10 + d <= 9223372036854775808u64,
{
    assert(acc * 10 + d <= 9223372036854775808u64) by (nonlinear_arith)
        requires
            acc <= (9223372036854775808u64 - d) / 10,
            d <= 9,
    ;
}

proof fn lemma_prefix_too_large(digits: Seq<u8>, k: int)
    requires
        0 <= k <= digits.len(),
        digits_value(digits.subrange(0, k)) > 9223372036854775808u64,
    ensures
        all_digits(digits) ==> digits_value(digits) > 9223372036854775808u64,
{
    if all_digits(digits) {
        lemma_digits_value_prefix(digits, k, digits.len() as int);
        assert(digits.subrange(0, digits.len() as int) =~= digits);
    }
}

/// Appends the decimal digits of `n` to `out`.
pub fn push_digits(out: &mut Vec<u8>, n: u64)
    ensures
        final(out)@ == old(out)@ + digits_of(n as nat),
    decreases n,
{
    if n >= 10 {
        push_digits(out, n / 10);
    }
    let d: u8 = (n % 10) as u8;
    out.push(48 + d);
    proof {
        if n >= 10 {
            assert(digits_of(n as nat) == digits_of((n / 10) as nat).push((48 + n % 10) as u8));
        }
    }
    assert(final(out)@ =~= old(out)@ + digits_of(n as nat));
}

/// Appends the decimal spelling of `i` to `out`.
pub fn push_decimal(out: &mut Vec<u8>, i: i64)
    ensures
        final(out)@ == old(out)@ + decimal_of(i as int),
{
    if i < 0 {
        out.push(45u8);
        let m: i128 = 0 - (i as i128);
        push_digits(out, m as u64);
        assert(final(out)@ =~= old(out)@ + decimal_of(i as int));
    } else {
        push_digits(out, i as u64);
    }
}

/// Reads `bytes` as a signed 64-bit decimal integer, as `i64`'s `from_str`
/// does: an optional sign, then one digit or more; `None` where that fails
/// or the value does not fit.
pub fn parse_integer(bytes: &[u8]) -> (r: Option<i64>)
    ensures
        r == parse_i64_spec(bytes@),
{
    let len = bytes.len();
    if len == 0 {
        return None;
    }
    let first = bytes[0];
    let signed = first == 43u8 || first == 45u8;
    let start: usize = if signed { 1 } else { 0 };
    let ghost digits = if signed { bytes@.drop_first() } else { bytes@ };
    assert(digits =~= bytes@.subrange(start as int, len as int));
    if start == len {
        return None;
    }
    let mut acc: u64 = 0;
    let mut i: usize = start;
    while i < len
        invariant
            start <= i <= len,
            len == bytes@.len(),
            len > 0,
            first == bytes@[0],
            signed == (first == 43u8 || first == 45u8),
            digits == (if signed { bytes@.drop_first() } else { bytes@ }),
            digits =~= bytes@.subrange(start as int, len as int),
            all_digits(digits.subrange(0, i - start)),
            acc == digits_value(digits.subrange(0, i - start)),
            acc <= 9223372036854775808u64,
        decreases len - i,
    {
        let b = bytes[i];
        if b < 48 || b > 57 {
            proof {
                lemma_non_digit(digits, (i - start) as int);
            }
            return None;
        }
        let d: u64 = (b - 48) as u64;
        proof {
            lemma_digits_step(digits, (i - start) as int);
        }
        if acc > (9223372036854775808u64 - d) / 10 {
            proof {
                lemma_overflow(acc, d);
                lemma_prefix_too_large(digits, (i + 1 - start) as int);
            }
            return None;
        }
        proof {
            lemma_no_overflow(acc, d);
        }
        acc = acc * 10 + d;
        i = i + 1;
    }
    assert(digits.subrange(0, len - start) =~= digits);
    if first == 45u8 {
        let v: i128 = 0 - (acc as i128);
        Some(v as i64)
    } else if acc > 9223372036854775807u64 {
        None
    } else {
        Some(acc as i64)
    }
}

/// A decimal spelling is ASCII.
pub proof fn lemma_decimal_ascii(i: i64)
    ensures
        forall|j: int| 0 <= j < decimal_of(i as int).len() ==> decimal_of(i as int)[j] < 128,
{
    let d = decimal_of(i as int);
    if i < 0 {
        lemma_digits_of_shape((-i) as nat);
        assert forall|j: int| 0 <= j < d.len() implies d[j] < 128 by {
            if j > 0 {
                assert(d[j] == digits_of((-i) as nat)[j - 1]);
                assert(is_digit(digits_of((-i) as nat)[j - 1]));
            }
        }
    } else {
        lemma_digits_of_shape(i as nat);
        assert forall|j: int| 0 <= j < d.len() implies d[j] < 128 by {
            assert(is_digit(d[j]));
        }
    }
}

} // verus!
