//! Text conversions that come from the standard library, and the
//! assembling of strings out of pieces.

use vstd::prelude::*;
use vstd::string::*;
use vstd::utf8::{decode_utf8, is_ascii_chars, valid_utf8};

use crate::decimal::{ascii_chars, decimal_of, digits_of, push_decimal, push_digits};

verus! {

/// What lossy decoding gives for bytes that are not valid UTF-8.
pub uninterp spec fn lossy_decode_invalid(bytes: Seq<u8>) -> Seq<char>;

/// The text that lossy UTF-8 decoding gives for `bytes`: valid UTF-8 is
/// decoded as it is; anything else as `String::from_utf8_lossy` does it.
pub open spec fn lossy_decode(bytes: Seq<u8>) -> Seq<char> {
    if valid_utf8(bytes) {
        decode_utf8(bytes)
    } else {
        lossy_decode_invalid(bytes)
    }
}

/// `String::from_utf8_lossy`, made owned. Its documentation promises that
/// valid UTF-8 comes back as the text it encodes; what it makes of invalid
/// sequences (each replaced by U+FFFD) is left to the name
/// `lossy_decode_invalid`.
#[verifier::external_body]
pub(crate) fn string_from_utf8_lossy(bytes: &[u8]) -> (r: String)
    ensures
        valid_utf8(bytes@) ==> r@ == decode_utf8(bytes@),
        !valid_utf8(bytes@) ==> r@ == lossy_decode_invalid(bytes@),
{
    String::from_utf8_lossy(bytes).into_owned()
}

/// What `str::to_uppercase` gives for text that is not all ASCII.
pub uninterp spec fn uppercase_non_ascii(s: Seq<char>) -> Seq<char>;

/// The ASCII upper case of `c`; other characters stay.
pub open spec fn ascii_upper(c: char) -> char {
    if 'a' <= c <= 'z' {
        ((c as u32) - 32) as char
    } else {
        c
    }
}

/// The Unicode upper case of `s`: for ASCII text, each lower-case letter
/// made upper case; for other text, as `str::to_uppercase` does it.
pub open spec fn uppercase(s: Seq<char>) -> Seq<char> {
    if is_ascii_chars(s) {
        s.map_values(|c: char| ascii_upper(c))
    } else {
        uppercase_non_ascii(s)
    }
}

/// `str::to_uppercase`. For ASCII text its result is the text with each
/// letter `a` to `z` made upper case (the case mapping that Unicode gives
/// these characters); for other text it is left to the name
/// `uppercase_non_ascii`.
#[verifier::external_body]
pub(crate) fn str_to_uppercase(s: &str) -> (r: String)
    ensures
        is_ascii_chars(s@) ==> r@ == s@.map_values(|c: char| ascii_upper(c)),
        !is_ascii_chars(s@) ==> r@ == uppercase_non_ascii(s@),
{
    s.to_uppercase()
}

/// What `{:?}` gives for text that is not all plain printable ASCII.
pub uninterp spec fn debug_quoted_other(s: Seq<char>) -> Seq<char>;

/// Whether `c` is printable ASCII that `{:?}` leaves as it is.
pub open spec fn debug_plain(c: char) -> bool {
    ' ' <= c <= '~' && c != '"' && c != '\\' && c != '\''
}

/// The `Debug` rendering of a string: plain printable ASCII between double
/// quotes; anything else as `{:?}` does it.
pub open spec fn debug_quoted(s: Seq<char>) -> Seq<char> {
    if forall|i: int| 0 <= i < s.len() ==> debug_plain(#[trigger] s[i]) {
        seq!['"'] + s + seq!['"']
    } else {
        debug_quoted_other(s)
    }
}

/// `format!("{:?}", s)`: the string between double quotes, with characters
/// escaped as `char::escape_debug` does. Printable ASCII other than quotes
/// and the backslash needs no escape; what the others become is left to the
/// name `debug_quoted_other`.
#[verifier::external_body]
pub(crate) fn debug_quote(s: &str) -> (r: String)
    ensures
        (forall|i: int| 0 <= i < s@.len() ==> debug_plain(#[trigger] s@[i])) ==> r@ == seq!['"'] + s@
            + seq!['"'],
        !(forall|i: int| 0 <= i < s@.len() ==> debug_plain(#[trigger] s@[i])) ==> r@
            == debug_quoted_other(s@),
{
    format!("{:?}", s)
}

/// `String::push`: appends one character.
#[verifier::external_body]
pub(crate) fn push_char(s: &mut String, c: char)
    ensures
        final(s)@ == old(s)@.push(c),
{
    s.push(c);
}

/// Appends `t` to `s`.
pub(crate) fn push_str(s: &mut String, t: &str)
    ensures
        final(s)@ == old(s)@ + t@,
{
    s.append(t);
}

/// Appends the characters of the ASCII bytes `bytes` to `s`.
pub(crate) fn push_ascii(s: &mut String, bytes: &[u8])
    requires
        forall|i: int| 0 <= i < bytes@.len() ==> bytes@[i] < 128,
    ensures
        final(s)@ == old(s)@ + ascii_chars(bytes@),
{
    let mut i: usize = 0;
    while i < bytes.len()
        invariant
            i <= bytes.len(),
            forall|j: int| 0 <= j < bytes@.len() ==> bytes@[j] < 128,
            s@ == old(s)@ + ascii_chars(bytes@.subrange(0, i as int)),
        decreases bytes.len() - i,
    {
        let b = bytes[i];
        push_char(s, b as char);
        i = i + 1;
        assert(s@ =~= old(s)@ + ascii_chars(bytes@.subrange(0, i as int)));
    }
    assert(bytes@.subrange(0, bytes.len() as int) =~= bytes@);
}

/// Appends the decimal spelling of `i` to `s`.
pub(crate) fn push_decimal_str(s: &mut String, i: i64)
    ensures
        final(s)@ == old(s)@ + ascii_chars(decimal_of(i as int)),
{
    let mut digits: Vec<u8> = Vec::new();
    push_decimal(&mut digits, i);
    assert(digits@ =~= decimal_of(i as int));
    proof {
        crate::decimal::lemma_decimal_ascii(i);
    }
    push_ascii(s, digits.as_slice());
}

/// Appends the decimal digits of `n` to `s`.
pub(crate) fn push_digits_str(s: &mut String, n: u64)
    ensures
        final(s)@ == old(s)@ + ascii_chars(digits_of(n as nat)),
{
    let mut digits: Vec<u8> = Vec::new();
    push_digits(&mut digits, n);
    assert(digits@ =~= digits_of(n as nat));
    proof {
        crate::decimal::lemma_digits_of_shape(n as nat);
        assert forall|j: int| 0 <= j < digits@.len() implies digits@[j] < 128 by {
            assert(crate::decimal::is_digit(digits@[j]));
        }
    }
    push_ascii(s, digits.as_slice());
}

} // verus!
