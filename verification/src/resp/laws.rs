//! What the wire format promises as a whole: a decoder reads back what an
//! encoder wrote, and what it decides does not depend on how the bytes arrive.

use vstd::prelude::*;

use crate::decimal::{decimal_of, digits_of, lemma_digits_of_shape, lemma_parse_decimal_of};
use crate::resp::decode::{find_newline, parse_items, parse_typed, parse_value, prepend, wrap_array, Parsed};
use crate::resp::value::{spec_encode, spec_encode_all, SpecValue};
use crate::resp::{crlf, RESP_MAX_SIZE};

verus! {

/// Whether `s` holds no `\n`.
pub open spec fn no_newline(s: Seq<u8>) -> bool {
    forall|i: int| 0 <= i < s.len() ==> s[i] != 10u8
}

/// Whether `v` can be written and read back: simple strings and errors hold
/// no `\n`, and no bulk string or array is too long to be declared.
pub open spec fn wire_ok(v: SpecValue) -> bool
    decreases v,
{
    match v {
        SpecValue::String(s) => no_newline(s),
        SpecValue::Error(s) => no_newline(s),
        SpecValue::BulkString(s) => s.len() < RESP_MAX_SIZE,
        SpecValue::Array(vs) => vs.len() < RESP_MAX_SIZE && all_wire_ok(vs),
        _ => true,
    }
}

/// Whether every value of `vs` can be written and read back.
pub open spec fn all_wire_ok(vs: Seq<SpecValue>) -> bool
    decreases vs,
{
    if vs.len() == 0 {
        true
    } else {
        wire_ok(vs[0]) && all_wire_ok(vs.subrange(1, vs.len() as int))
    }
}

/// What a decoder reads back of `v`: without `bulk`, bulk strings come
/// back as simple strings, at every depth.
pub open spec fn as_received(v: SpecValue, bulk: bool) -> SpecValue
    decreases v,
{
    match v {
        SpecValue::BulkString(s) => if bulk {
            SpecValue::BulkString(s)
        } else {
            SpecValue::String(s)
        },
        SpecValue::Array(vs) => SpecValue::Array(all_as_received(vs, bulk)),
        _ => v,
    }
}

/// What a decoder reads back of each value of `vs`.
pub open spec fn all_as_received(vs: Seq<SpecValue>, bulk: bool) -> Seq<SpecValue>
    decreases vs,
{
    if vs.len() == 0 {
        Seq::empty()
    } else {
        seq![as_received(vs[0], bulk)] + all_as_received(vs.subrange(1, vs.len() as int), bulk)
    }
}

/// The encodings of a sequence of values, read from the front.
pub proof fn lemma_encode_all_front(vs: Seq<SpecValue>)
    requires
        vs.len() > 0,
    ensures
        spec_encode_all(vs) == spec_encode(vs[0]) + spec_encode_all(vs.subrange(1, vs.len() as int)),
    decreases vs.len(),
{
    let n = vs.len() as int;
    if n == 1 {
        assert(vs.subrange(0, 0) =~= Seq::<SpecValue>::empty());
        assert(vs.subrange(1, 1) =~= Seq::<SpecValue>::empty());
        assert(spec_encode_all(vs) =~= spec_encode(vs[0]) + spec_encode_all(vs.subrange(1, n)));
    } else {
        let init = vs.subrange(0, n - 1);
        lemma_encode_all_front(init);
        assert(init.subrange(1, n - 1) =~= vs.subrange(1, n).subrange(0, n - 2));
        assert(vs.subrange(1, n)[n - 2] == vs[n - 1]);
        assert(init[0] == vs[0]);
        assert(spec_encode_all(vs.subrange(1, n)) == spec_encode_all(vs.subrange(1, n).subrange(0, n - 2))
            + spec_encode(vs.subrange(1, n)[n - 2]));
        assert(spec_encode_all(vs) =~= spec_encode(vs[0]) + spec_encode_all(vs.subrange(1, n)));
    }
}

/// `find_newline` finds the `\n` that the first `k` bytes lack.
proof fn lemma_find_newline_at(s: Seq<u8>, i: int, k: int)
    requires
        0 <= i <= k < s.len(),
        s[k] == 10u8,
        forall|j: int| i <= j < k ==> s[j] != 10u8,
    ensures
        find_newline(s, i) == Some(k),
    decreases k - i,
{
    if i < k {
        lemma_find_newline_at(s, i + 1, k);
    }
}

/// How the first line of `[t] + payload + \r\n + rest` is read.
proof fn lemma_header(t: u8, payload: Seq<u8>, rest: Seq<u8>, bulk: bool)
    requires
        t != 10u8,
        no_newline(payload),
    ensures
        ({
            let s = seq![t] + payload + crlf() + rest;
            let k = payload.len() + 2int;
            &&& find_newline(s, 0) == Some(k)
            &&& s[k - 1] == 13u8
            &&& s[0] == t
            &&& s.subrange(1, k - 1) == payload
            &&& s.skip(k + 1) == rest
            &&& k < s.len()
            &&& parse_value(s, bulk) == parse_typed(s, k, bulk)
        }),
{
    let s = seq![t] + payload + crlf() + rest;
    let k = payload.len() + 2int;
    assert forall|j: int| 0 <= j < k implies s[j] != 10u8 by {
        if 1 <= j < k - 1 {
            assert(s[j] == payload[j - 1]);
        }
    }
    lemma_find_newline_at(s, 0, k);
    assert(s.subrange(1, k - 1) =~= payload);
    assert(s.skip(k + 1) =~= rest);
}

/// Decimal digits hold no `\n`, and read back as their number.
proof fn lemma_digits_line(n: nat)
    requires
        n < RESP_MAX_SIZE,
    ensures
        no_newline(digits_of(n)),
        crate::decimal::parse_i64_spec(digits_of(n)) == Some(n as i64),
{
    lemma_digits_of_shape(n);
    lemma_parse_decimal_of(n as i64);
    assert(decimal_of(n as int) == digits_of(n));
    assert forall|i: int| 0 <= i < digits_of(n).len() implies digits_of(n)[i] != 10u8 by {
        assert(crate::decimal::is_digit(digits_of(n)[i]));
    }
}

/// A one-line value reads back as itself.
proof fn lemma_decode_encode_line(v: SpecValue, rest: Seq<u8>, bulk: bool)
    requires
        wire_ok(v),
        !(v is BulkString),
        !(v is Array),
    ensures
        parse_value(spec_encode(v) + rest, bulk) == Parsed::Done(as_received(v, bulk), spec_encode(v).len()),
{
    let s = spec_encode(v) + rest;
    match v {
        SpecValue::Null => {
            lemma_header(95u8, Seq::empty(), rest, bulk);
            assert(s =~= seq![95u8] + Seq::<u8>::empty() + crlf() + rest);
        },
        SpecValue::NullArray => {
            lemma_header(42u8, seq![45u8, 49u8], rest, bulk);
            assert(s =~= seq![42u8] + seq![45u8, 49u8] + crlf() + rest);
            lemma_parse_decimal_of(-1i64);
            assert(decimal_of(-1int) =~= seq![45u8, 49u8]) by {
                assert(digits_of(1nat) =~= seq![49u8]);
            }
        },
        SpecValue::String(p) => {
            lemma_header(43u8, p, rest, bulk);
            assert(s =~= seq![43u8] + p + crlf() + rest);
        },
        SpecValue::Error(p) => {
            lemma_header(45u8, p, rest, bulk);
            assert(s =~= seq![45u8] + p + crlf() + rest);
        },
        SpecValue::Integer(i) => {
            let d = decimal_of(i as int);
            lemma_parse_decimal_of(i);
            lemma_decimal_no_newline(i);
            lemma_header(58u8, d, rest, bulk);
            assert(s =~= seq![58u8] + d + crlf() + rest);
        },
        SpecValue::Boolean(b) => {
            let p = seq![if b { 116u8 } else { 102u8 }];
            lemma_header(35u8, p, rest, bulk);
            assert(s =~= seq![35u8] + p + crlf() + rest);
        },
        _ => {},
    }
}

/// The decimal spelling of an integer holds no `\n`.
proof fn lemma_decimal_no_newline(i: i64)
    ensures
        no_newline(decimal_of(i as int)),
{
    let d = decimal_of(i as int);
    if i < 0 {
        lemma_digits_of_shape((-i) as nat);
        assert forall|j: int| 0 <= j < d.len() implies d[j] != 10u8 by {
            if j > 0 {
                assert(d[j] == digits_of((-i) as nat)[j - 1]);
                assert(crate::decimal::is_digit(digits_of((-i) as nat)[j - 1]));
            }
        }
    } else {
        lemma_digits_of_shape(i as nat);
        assert forall|j: int| 0 <= j < d.len() implies d[j] != 10u8 by {
            assert(crate::decimal::is_digit(d[j]));
        }
    }
}

/// A bulk string reads back as itself, or as a simple string.
proof fn lemma_decode_encode_bulk(data: Seq<u8>, rest: Seq<u8>, bulk: bool)
    requires
        data.len() < RESP_MAX_SIZE,
    ensures
        parse_value(spec_encode(SpecValue::BulkString(data)) + rest, bulk) == Parsed::Done(
            as_received(SpecValue::BulkString(data), bulk),
            spec_encode(SpecValue::BulkString(data)).len(),
        ),
{
    let s = spec_encode(SpecValue::BulkString(data)) + rest;
    let d = digits_of(data.len());
    lemma_digits_line(data.len());
    let tail = data + crlf() + rest;
    lemma_header(36u8, d, tail, bulk);
    assert(s =~= seq![36u8] + d + crlf() + tail);
    let next = d.len() + 3int;
    let n = data.len() as int;
    assert(s.skip(next) =~= tail);
    assert(s[next + n] == 13u8 && s[next + n + 1] == 10u8) by {
        assert(tail[n] == 13u8);
        assert(tail[n + 1] == 10u8);
    }
    assert(s.subrange(next, next + n) =~= data) by {
        assert forall|j: int| 0 <= j < n implies s.subrange(next, next + n)[j] == data[j] by {
            assert(s[next + j] == tail[j]);
        }
    }
}

/// An array reads back as itself, with its elements read back.
proof fn lemma_decode_encode_array(vs: Seq<SpecValue>, rest: Seq<u8>, bulk: bool)
    requires
        vs.len() < RESP_MAX_SIZE,
        all_wire_ok(vs),
        parse_items(spec_encode_all(vs) + rest, vs.len(), bulk) == Parsed::Done(
            all_as_received(vs, bulk),
            spec_encode_all(vs).len(),
        ),
    ensures
        parse_value(spec_encode(SpecValue::Array(vs)) + rest, bulk) == Parsed::Done(
            as_received(SpecValue::Array(vs), bulk),
            spec_encode(SpecValue::Array(vs)).len(),
        ),
{
    let s = spec_encode(SpecValue::Array(vs)) + rest;
    let d = digits_of(vs.len());
    lemma_digits_line(vs.len());
    let tail = spec_encode_all(vs) + rest;
    lemma_header(42u8, d, tail, bulk);
    assert(s =~= seq![42u8] + d + crlf() + tail);
    let next = (d.len() + 3) as nat;
    assert(parse_typed(s, d.len() + 2int, bulk) == wrap_array(parse_items(tail, vs.len(), bulk), next));
}

/// A decoder reads back what the encoder wrote, whatever follows it: the
/// value (bulk strings as simple strings unless `bulk`), having taken
/// exactly the bytes of its encoding.
pub proof fn lemma_decode_encode(v: SpecValue, rest: Seq<u8>, bulk: bool)
    requires
        wire_ok(v),
    ensures
        parse_value(spec_encode(v) + rest, bulk) == Parsed::Done(as_received(v, bulk), spec_encode(v).len()),
    decreases v,
{
    match v {
        SpecValue::BulkString(data) => {
            lemma_decode_encode_bulk(data, rest, bulk);
        },
        SpecValue::Array(vs) => {
            lemma_items_encode(vs, rest, bulk);
            lemma_decode_encode_array(vs, rest, bulk);
        },
        _ => {
            lemma_decode_encode_line(v, rest, bulk);
        },
    }
}

/// A decoder reads back, one after the other, the values whose encodings
/// were written one after the other.
pub proof fn lemma_items_encode(vs: Seq<SpecValue>, rest: Seq<u8>, bulk: bool)
    requires
        all_wire_ok(vs),
    ensures
        parse_items(spec_encode_all(vs) + rest, vs.len(), bulk) == Parsed::Done(
            all_as_received(vs, bulk),
            spec_encode_all(vs).len(),
        ),
    decreases vs,
{
    if vs.len() > 0 {
        let n = vs.len() as int;
        let tail = vs.subrange(1, n);
        lemma_encode_all_front(vs);
        let e0 = spec_encode(vs[0]);
        let s = spec_encode_all(vs) + rest;
        let after = spec_encode_all(tail) + rest;
        assert(s =~= e0 + after);
        lemma_decode_encode(vs[0], after, bulk);
        lemma_items_encode(tail, rest, bulk);
        assert(e0.len() > 0) by {
            reveal_with_fuel(spec_encode, 1);
        }
        assert(s.skip(e0.len() as int) =~= after);
        assert(parse_items(s, vs.len(), bulk) == prepend(
            seq![as_received(vs[0], bulk)],
            e0.len(),
            parse_items(after, (vs.len() - 1) as nat, bulk),
        ));
    } else {
        assert(spec_encode_all(vs) =~= Seq::<u8>::empty());
    }
}

/// A decoded value takes at least one byte and no more than there are.
pub proof fn lemma_parse_value_consumes(s: Seq<u8>, bulk: bool)
    ensures
        parse_value(s, bulk) matches Parsed::Done(_, c) ==> 0 < c <= s.len(),
    decreases s.len(), 2int,
{
    if let Some(k) = find_newline(s, 0) {
        crate::resp::decode::lemma_find_newline(s, 0);
        if k >= 2 && s[k - 1] == 13u8 {
            lemma_parse_typed_consumes(s, k, bulk);
        }
    }
}

proof fn lemma_parse_typed_consumes(s: Seq<u8>, k: int, bulk: bool)
    requires
        2 <= k < s.len(),
    ensures
        parse_typed(s, k, bulk) matches Parsed::Done(_, c) ==> 0 < c <= s.len(),
    decreases s.len(), 1int,
{
    let payload = s.subrange(1, k - 1);
    if s[0] == 42u8 {
        if let Some(n) = crate::decimal::parse_i64_spec(payload) {
            if 0 <= n < RESP_MAX_SIZE {
                lemma_parse_items_consumes(s.skip(k + 1), n as nat, bulk);
            }
        }
    }
}

/// Decoded values take no more bytes than there are.
pub proof fn lemma_parse_items_consumes(s: Seq<u8>, n: nat, bulk: bool)
    ensures
        parse_items(s, n, bulk) matches Parsed::Done(_, c) ==> c <= s.len(),
    decreases s.len(), 3int,
{
    if n > 0 {
        lemma_parse_value_consumes(s, bulk);
        if let Parsed::Done(v, c) = parse_value(s, bulk) {
            lemma_parse_items_consumes(s.skip(c as int), (n - 1) as nat, bulk);
        }
    }
}

/// Bytes that arrive later do not move the first `\n` already received.
proof fn lemma_find_newline_extend(s: Seq<u8>, t: Seq<u8>, i: int)
    requires
        0 <= i,
        find_newline(s, i) is Some,
    ensures
        find_newline(s + t, i) == find_newline(s, i),
    decreases s.len() - i,
{
    if i < s.len() && s[i] != 10u8 {
        lemma_find_newline_extend(s, t, i + 1);
    }
}

/// Whether `p` is a decision that no further bytes can change.
pub open spec fn settled<T>(p: Parsed<T>) -> bool {
    p is Done || p is Invalid
}

/// What the decoder has decided about the front of some bytes, a value or
/// an error that is not the end of the input, stands whatever bytes arrive
/// after them.
pub proof fn lemma_parse_value_extend(s: Seq<u8>, t: Seq<u8>, bulk: bool)
    ensures
        settled(parse_value(s, bulk)) ==> parse_value(s + t, bulk) == parse_value(s, bulk),
    decreases s.len(), 2int,
{
    if let Some(k) = find_newline(s, 0) {
        crate::resp::decode::lemma_find_newline(s, 0);
        lemma_find_newline_extend(s, t, 0);
        let st = s + t;
        if k >= 1 {
            assert(st[k - 1] == s[k - 1]);
        }
        if k >= 2 && s[k - 1] == 13u8 {
            lemma_parse_typed_extend(s, t, k, bulk);
        }
    }
}

/// What a value whose first line has been received decides stands whatever
/// bytes arrive after it.
proof fn lemma_parse_typed_extend(s: Seq<u8>, t: Seq<u8>, k: int, bulk: bool)
    requires
        2 <= k < s.len(),
    ensures
        settled(parse_typed(s, k, bulk)) ==> parse_typed(s + t, k, bulk) == parse_typed(s, k, bulk),
    decreases s.len(), 1int,
{
    let st = s + t;
    assert(st[0] == s[0]);
    assert(st.subrange(1, k - 1) =~= s.subrange(1, k - 1));
    let payload = s.subrange(1, k - 1);
    let next = k + 1;
    if s[0] == 36u8 {
        if let Some(n) = crate::decimal::parse_i64_spec(payload) {
            if 0 <= n < RESP_MAX_SIZE && s.len() >= next + n + 2 {
                assert(st[next + n] == s[next + n]);
                assert(st[next + n + 1] == s[next + n + 1]);
                assert(st.subrange(next, next + n) =~= s.subrange(next, next + n));
            }
        }
    } else if s[0] == 42u8 {
        if let Some(n) = crate::decimal::parse_i64_spec(payload) {
            if 0 <= n < RESP_MAX_SIZE {
                assert(st.skip(next) =~= s.skip(next) + t);
                lemma_parse_items_extend(s.skip(next), t, n as nat, bulk);
            }
        }
    }
}

/// What the decoder has decided about a run of values stands whatever
/// bytes arrive after them.
pub proof fn lemma_parse_items_extend(s: Seq<u8>, t: Seq<u8>, n: nat, bulk: bool)
    ensures
        settled(parse_items(s, n, bulk)) ==> parse_items(s + t, n, bulk) == parse_items(s, n, bulk),
    decreases s.len(), 3int,
{
    if n > 0 {
        lemma_parse_value_extend(s, t, bulk);
        lemma_parse_value_consumes(s, bulk);
        if let Parsed::Done(v, c) = parse_value(s, bulk) {
            if 0 < c <= s.len() {
                assert((s + t).skip(c as int) =~= s.skip(c as int) + t);
                lemma_parse_items_extend(s.skip(c as int), t, (n - 1) as nat, bulk);
                let inner = parse_items(s.skip(c as int), (n - 1) as nat, bulk);
                assert(parse_items(s, n, bulk) == prepend(seq![v], c, inner));
                if settled(parse_items(s, n, bulk)) {
                    assert(settled(inner));
                    assert(parse_value(s + t, bulk) == Parsed::Done(v, c));
                    assert(parse_items(s + t, n, bulk) == prepend(seq![v], c, parse_items((s + t).skip(c as int), (n - 1) as nat, bulk)));
                }
            }
        }
    }
}

/// A decoder that keeps bulk strings reads back every value exactly.
pub proof fn lemma_as_received_bulk(v: SpecValue)
    ensures
        as_received(v, true) == v,
    decreases v,
{
    if let SpecValue::Array(vs) = v {
        lemma_all_as_received_bulk(vs);
    }
}

/// A decoder that keeps bulk strings reads back every value of a run exactly.
pub proof fn lemma_all_as_received_bulk(vs: Seq<SpecValue>)
    ensures
        all_as_received(vs, true) == vs,
    decreases vs,
{
    if vs.len() > 0 {
        let rest = vs.subrange(1, vs.len() as int);
        lemma_as_received_bulk(vs[0]);
        lemma_all_as_received_bulk(rest);
        assert(seq![vs[0]] + rest =~= vs);
    } else {
        assert(vs =~= Seq::<SpecValue>::empty());
    }
}

/// What a decoder that reads bulk strings as simple strings makes of a
/// decoding: the same, with every bulk string, at every depth, a simple
/// string.
pub open spec fn as_simple(p: Parsed<SpecValue>) -> Parsed<SpecValue> {
    match p {
        Parsed::Done(v, c) => Parsed::Done(as_received(v, false), c),
        Parsed::Incomplete(e) => Parsed::Incomplete(e),
        Parsed::Invalid(e) => Parsed::Invalid(e),
    }
}

/// `as_simple` for a run of values.
pub open spec fn all_as_simple(p: Parsed<Seq<SpecValue>>) -> Parsed<Seq<SpecValue>> {
    match p {
        Parsed::Done(vs, c) => Parsed::Done(all_as_received(vs, false), c),
        Parsed::Incomplete(e) => Parsed::Incomplete(e),
        Parsed::Invalid(e) => Parsed::Invalid(e),
    }
}

/// The two decoders agree on all bytes: they fail alike, take the same
/// bytes, and differ only in that the one without `bulk` reads every bulk
/// string, at every depth, as a simple string.
pub proof fn lemma_decoder_modes(s: Seq<u8>)
    ensures
        parse_value(s, false) == as_simple(parse_value(s, true)),
    decreases s.len(), 2int,
{
    if let Some(k) = find_newline(s, 0) {
        crate::resp::decode::lemma_find_newline(s, 0);
        if k >= 2 && s[k - 1] == 13u8 {
            lemma_decoder_modes_typed(s, k);
        }
    }
}

proof fn lemma_decoder_modes_typed(s: Seq<u8>, k: int)
    requires
        2 <= k < s.len(),
    ensures
        parse_typed(s, k, false) == as_simple(parse_typed(s, k, true)),
    decreases s.len(), 1int,
{
    let payload = s.subrange(1, k - 1);
    let next = k + 1;
    if s[0] == 42u8 {
        if let Some(n) = crate::decimal::parse_i64_spec(payload) {
            if 0 <= n < RESP_MAX_SIZE {
                lemma_decoder_modes_items(s.skip(next), n as nat);
            }
        }
    }
}

/// The two decoders agree on every run of values.
pub proof fn lemma_decoder_modes_items(s: Seq<u8>, n: nat)
    ensures
        parse_items(s, n, false) == all_as_simple(parse_items(s, n, true)),
    decreases s.len(), 3int,
{
    if n == 0 {
        assert(all_as_received(Seq::<SpecValue>::empty(), false) =~= Seq::<SpecValue>::empty());
    } else {
        lemma_decoder_modes(s);
        if let Parsed::Done(v, c) = parse_value(s, true) {
            if 0 < c <= s.len() {
                lemma_decoder_modes_items(s.skip(c as int), (n - 1) as nat);
                if let Parsed::Done(vs, c2) = parse_items(s.skip(c as int), (n - 1) as nat, true) {
                    let w = seq![v] + vs;
                    assert(w[0] == v);
                    assert(w.subrange(1, w.len() as int) =~= vs);
                    assert(all_as_received(w, false) =~= seq![as_received(v, false)] + all_as_received(vs, false));
                }
            }
        }
    }
}

} // verus!
