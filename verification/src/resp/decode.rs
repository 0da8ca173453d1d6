//! Decoding RESP values from bytes: what the bytes mean, as a function of
//! them, and a decoder that keeps the bytes that have arrived.

use vstd::prelude::*;

use crate::bytes::ByteString;
use crate::decimal::{parse_i64_spec, parse_integer};
use crate::resp::value::{lemma_values_view, values_view, SpecValue, Value};
use crate::resp::RESP_MAX_SIZE;

verus! {

/// Why bytes could not be decoded as a RESP value.
#[derive(Debug, PartialEq, Eq, Clone, Copy)]
pub enum DecodeError {
    /// The input ended where a value was still expected.
    UnexpectedEof,
    /// A line did not end with `\r\n`.
    MissingCrlf,
    /// A line held fewer than three bytes.
    LineTooShort,
    /// A payload that had to be a decimal integer was not one.
    InvalidInteger,
    /// A boolean payload was neither `t` nor `f`.
    InvalidBoolean,
    /// A bulk string declared a length below `-1` or too large.
    InvalidBulkLength(i64),
    /// A bulk string's data was not followed by `\r\n`.
    BulkMissingCrlf,
    /// An array declared a length below `-1` or too large.
    InvalidArrayLength(i64),
    /// A line started with a byte that names no RESP type.
    InvalidTypeByte(u8),
}

/// What reading a value from the front of some bytes gives: the value and
/// the number of bytes it took, or the error that the end of the bytes
/// gives at that point (more bytes may still complete it), or an error that
/// no further bytes can undo.
pub enum Parsed<T> {
    Done(T, nat),
    Incomplete(DecodeError),
    Invalid(DecodeError),
}

/// The index of the first `\n` in `s` at or after `i`.
pub open spec fn find_newline(s: Seq<u8>, i: int) -> Option<int>
    decreases s.len() - i,
{
    if i < 0 || i >= s.len() {
        None
    } else if s[i] == 10u8 {
        Some(i)
    } else {
        find_newline(s, i + 1)
    }
}

/// `find_newline` finds the first `\n`, or tells that there is none.
pub proof fn lemma_find_newline(s: Seq<u8>, i: int)
    requires
        0 <= i,
    ensures
        match find_newline(s, i) {
            Some(k) => i <= k < s.len() && s[k] == 10u8 && forall|j: int| i <= j < k ==> s[j] != 10u8,
            None => forall|j: int| i <= j < s.len() ==> s[j] != 10u8,
        },
    decreases s.len() - i,
{
    if i < s.len() && s[i] != 10u8 {
        lemma_find_newline(s, i + 1);
    }
}

/// Puts `vs0`, which took `c0` bytes, in front of what the rest gave.
pub open spec fn prepend(vs0: Seq<SpecValue>, c0: nat, p: Parsed<Seq<SpecValue>>) -> Parsed<Seq<SpecValue>> {
    match p {
        Parsed::Done(vs, c) => Parsed::Done(vs0 + vs, c0 + c),
        Parsed::Incomplete(e) => Parsed::Incomplete(e),
        Parsed::Invalid(e) => Parsed::Invalid(e),
    }
}

/// An array of the values that `p` gave, after a header of `header` bytes.
pub open spec fn wrap_array(p: Parsed<Seq<SpecValue>>, header: nat) -> Parsed<SpecValue> {
    match p {
        Parsed::Done(vs, c) => Parsed::Done(SpecValue::Array(vs), header + c),
        Parsed::Incomplete(e) => Parsed::Incomplete(e),
        Parsed::Invalid(e) => Parsed::Invalid(e),
    }
}

/// What decoding one RESP value from the front of `s` gives. With `bulk`,
/// a bulk string stays a bulk string; without, it is read as a simple string.
pub open spec fn parse_value(s: Seq<u8>, bulk: bool) -> Parsed<SpecValue>
    decreases s.len(), 2int,
{
    match find_newline(s, 0) {
        None => {
            if s.len() == 0 {
                Parsed::Incomplete(DecodeError::UnexpectedEof)
            } else {
                Parsed::Incomplete(DecodeError::MissingCrlf)
            }
        },
        Some(k) => {
            if k < 1 || s[k - 1] != 13u8 {
                Parsed::Invalid(DecodeError::MissingCrlf)
            } else if k < 2 {
                Parsed::Invalid(DecodeError::LineTooShort)
            } else {
                parse_typed(s, k, bulk)
            }
        },
    }
}

/// What a bulk string gives whose header line takes `next` bytes of `s` and
/// whose declared length read as `len`.
pub open spec fn parse_bulk(s: Seq<u8>, next: nat, len: Option<i64>, bulk: bool) -> Parsed<SpecValue> {
    match len {
        None => Parsed::Invalid(DecodeError::InvalidInteger),
        Some(n) => {
            if n == -1 {
                Parsed::Done(SpecValue::Null, next)
            } else if n < 0 || n >= RESP_MAX_SIZE {
                Parsed::Invalid(DecodeError::InvalidBulkLength(n))
            } else if s.len() < next + n + 2 {
                Parsed::Incomplete(DecodeError::UnexpectedEof)
            } else if s[next + n] != 13u8 || s[next + n + 1] != 10u8 {
                Parsed::Invalid(DecodeError::BulkMissingCrlf)
            } else {
                let data = s.subrange(next as int, next + n);
                if bulk {
                    Parsed::Done(SpecValue::BulkString(data), (next + n + 2) as nat)
                } else {
                    Parsed::Done(SpecValue::String(data), (next + n + 2) as nat)
                }
            }
        },
    }
}

/// What a boolean line with this payload gives.
pub open spec fn parse_boolean(payload: Seq<u8>, next: nat) -> Parsed<SpecValue> {
    if payload == seq![116u8] {
        Parsed::Done(SpecValue::Boolean(true), next)
    } else if payload == seq![102u8] {
        Parsed::Done(SpecValue::Boolean(false), next)
    } else {
        Parsed::Invalid(DecodeError::InvalidBoolean)
    }
}

/// What the value gives whose first line, ending with `\r\n`, ends at
/// index `k` of `s`, its type being named by `s[0]`.
pub open spec fn parse_typed(s: Seq<u8>, k: int, bulk: bool) -> Parsed<SpecValue>
    decreases s.len(), 1int,
{
    let t = s[0];
    let payload = s.subrange(1, k - 1);
    let next = (k + 1) as nat;
    if t == 95u8 {
        Parsed::Done(SpecValue::Null, next)
    } else if t == 43u8 {
        Parsed::Done(SpecValue::String(payload), next)
    } else if t == 45u8 {
        Parsed::Done(SpecValue::Error(payload), next)
    } else if t == 58u8 {
        match parse_i64_spec(payload) {
            Some(i) => Parsed::Done(SpecValue::Integer(i), next),
            None => Parsed::Invalid(DecodeError::InvalidInteger),
        }
    } else if t == 35u8 {
        parse_boolean(payload, next)
    } else if t == 36u8 {
        parse_bulk(s, next, parse_i64_spec(payload), bulk)
    } else if t == 42u8 {
        match parse_i64_spec(payload) {
            None => Parsed::Invalid(DecodeError::InvalidInteger),
            Some(n) => {
                if n == -1 {
                    Parsed::Done(SpecValue::NullArray, next)
                } else if n < 0 || n >= RESP_MAX_SIZE {
                    Parsed::Invalid(DecodeError::InvalidArrayLength(n))
                } else if 0 <= k < s.len() {
                    wrap_array(parse_items(s.skip(next as int), n as nat, bulk), next)
                } else {
                    Parsed::Invalid(DecodeError::MissingCrlf)
                }
            },
        }
    } else {
        Parsed::Invalid(DecodeError::InvalidTypeByte(t))
    }
}

/// What decoding `n` RESP values, one after the other, from the front of
/// `s` gives.
pub open spec fn parse_items(s: Seq<u8>, n: nat, bulk: bool) -> Parsed<Seq<SpecValue>>
    decreases s.len(), 3int,
{
    if n == 0 {
        Parsed::Done(Seq::empty(), 0)
    } else {
        match parse_value(s, bulk) {
            Parsed::Done(v, c) => {
                if 0 < c <= s.len() {
                    prepend(seq![v], c, parse_items(s.skip(c as int), (n - 1) as nat, bulk))
                } else {
                    Parsed::Invalid(DecodeError::UnexpectedEof)
                }
            },
            Parsed::Incomplete(e) => Parsed::Incomplete(e),
            Parsed::Invalid(e) => Parsed::Invalid(e),
        }
    }
}

/// What one decoding step gave: a value and the number of bytes it took,
/// or the error that the end of the input gives here, or an error that no
/// further input can undo.
pub enum DecodeStep {
    Done(Value, usize),
    Incomplete(DecodeError),
    Invalid(DecodeError),
}

impl View for DecodeStep {
    type V = Parsed<SpecValue>;

    open spec fn view(&self) -> Parsed<SpecValue> {
        match self {
            DecodeStep::Done(v, c) => Parsed::Done(v@, *c as nat),
            DecodeStep::Incomplete(e) => Parsed::Incomplete(*e),
            DecodeStep::Invalid(e) => Parsed::Invalid(*e),
        }
    }
}

/// The index, counted from `pos`, of the first `\n` at or after `pos`.
fn next_newline(input: &[u8], pos: usize) -> (r: Option<usize>)
    requires
        pos <= input@.len(),
    ensures
        match r {
            Some(k) => find_newline(input@.skip(pos as int), 0) == Some(k as int),
            None => find_newline(input@.skip(pos as int), 0) is None,
        },
{
    let ghost s = input@.skip(pos as int);
    let mut i: usize = pos;
    while i < input.len()
        invariant
            pos <= i <= input@.len(),
            s == input@.skip(pos as int),
            find_newline(s, 0) == find_newline(s, i - pos),
        decreases input.len() - i,
    {
        if input[i] == 10u8 {
            return Some(i - pos);
        }
        i = i + 1;
    }
    None
}

/// `parse_items` takes the first value off the front and goes on after it.
proof fn lemma_parse_items_step(s: Seq<u8>, n: nat, bulk: bool, v: SpecValue, c: nat)
    requires
        n > 0,
        parse_value(s, bulk) == Parsed::Done(v, c),
        0 < c <= s.len(),
    ensures
        parse_items(s, n, bulk) == prepend(seq![v], c, parse_items(s.skip(c as int), (n - 1) as nat, bulk)),
{
}

/// Putting two runs in front, one after the other, is putting both at once.
proof fn lemma_prepend_prepend(a: Seq<SpecValue>, x: nat, b: Seq<SpecValue>, y: nat, p: Parsed<Seq<SpecValue>>)
    ensures
        prepend(a, x, prepend(b, y, p)) == prepend(a + b, x + y, p),
{
    match p {
        Parsed::Done(vs, c) => {
            assert(a + (b + vs) =~= (a + b) + vs);
        },
        _ => {},
    }
}

/// Decodes one RESP value from `input`, starting at `pos`.
pub fn parse_value_at(input: &[u8], pos: usize, bulk: bool) -> (r: DecodeStep)
    requires
        pos <= input@.len(),
    ensures
        r@ == parse_value(input@.skip(pos as int), bulk),
        r matches DecodeStep::Done(_, c) ==> 0 < c <= input@.len() - pos,
    decreases input@.len() - pos, 2int,
{
    let ghost s = input@.skip(pos as int);
    proof {
        lemma_find_newline(s, 0);
    }
    let k = match next_newline(input, pos) {
        None => {
            if pos == input.len() {
                return DecodeStep::Incomplete(DecodeError::UnexpectedEof);
            } else {
                return DecodeStep::Incomplete(DecodeError::MissingCrlf);
            }
        },
        Some(k) => k,
    };
    assert(s.len() == input@.len() - pos);
    assert(k < s.len());
    assert(pos + k < input.len());
    if k < 1 || input[pos + k - 1] != 13u8 {
        return DecodeStep::Invalid(DecodeError::MissingCrlf);
    }
    if k < 2 {
        return DecodeStep::Invalid(DecodeError::LineTooShort);
    }
    parse_typed_at(input, pos, k, bulk)
}

/// Decodes the value whose first line, ending with `\r\n`, starts at `pos`
/// and has its `\n` at `pos + k`.
fn parse_typed_at(input: &[u8], pos: usize, k: usize, bulk: bool) -> (r: DecodeStep)
    requires
        pos <= input@.len(),
        2 <= k < input@.len() - pos,
    ensures
        r@ == parse_typed(input@.skip(pos as int), k as int, bulk),
        r matches DecodeStep::Done(_, c) ==> 0 < c <= input@.len() - pos,
    decreases input@.len() - pos, 1int,
{
    let ghost s = input@.skip(pos as int);
    let t = input[pos];
    let payload = vstd::slice::slice_subrange(input, pos + 1, pos + k - 1);
    assert(payload@ =~= s.subrange(1, k - 1));
    let next: usize = k + 1;
    if t == 95u8 {
        DecodeStep::Done(Value::Null, next)
    } else if t == 43u8 {
        DecodeStep::Done(Value::String(ByteString(vstd::slice::slice_to_vec(payload))), next)
    } else if t == 45u8 {
        DecodeStep::Done(Value::Error(ByteString(vstd::slice::slice_to_vec(payload))), next)
    } else if t == 58u8 {
        match parse_integer(payload) {
            Some(i) => DecodeStep::Done(Value::Integer(i), next),
            None => DecodeStep::Invalid(DecodeError::InvalidInteger),
        }
    } else if t == 35u8 {
        if k == 3 && input[pos + 1] == 116u8 {
            assert(payload@ =~= seq![116u8]);
            DecodeStep::Done(Value::Boolean(true), next)
        } else if k == 3 && input[pos + 1] == 102u8 {
            assert(payload@ =~= seq![102u8]);
            DecodeStep::Done(Value::Boolean(false), next)
        } else {
            assert(payload@ != seq![116u8] && payload@ != seq![102u8]) by {
                if k == 3 {
                    assert(payload@[0] == input@[pos + 1]);
                } else {
                    assert(payload@.len() != 1);
                }
            }
            DecodeStep::Invalid(DecodeError::InvalidBoolean)
        }
    } else if t == 36u8 {
        let len = parse_integer(payload);
        parse_bulk_at(input, pos, next, len, bulk)
    } else if t == 42u8 {
        match parse_integer(payload) {
            None => DecodeStep::Invalid(DecodeError::InvalidInteger),
            Some(n) => {
                if n == -1 {
                    DecodeStep::Done(Value::NullArray, next)
                } else if n < 0 || n >= RESP_MAX_SIZE {
                    DecodeStep::Invalid(DecodeError::InvalidArrayLength(n))
                } else {
                    let items = parse_array_at(input, pos, next, n as usize, bulk);
                    items
                }
            },
        }
    } else {
        DecodeStep::Invalid(DecodeError::InvalidTypeByte(t))
    }
}

/// Decodes the data of a bulk string whose header line takes `next` bytes
/// from `pos` and whose length read as `len`.
fn parse_bulk_at(input: &[u8], pos: usize, next: usize, len: Option<i64>, bulk: bool) -> (r: DecodeStep)
    requires
        pos <= input@.len(),
        0 < next <= input@.len() - pos,
    ensures
        r@ == parse_bulk(input@.skip(pos as int), next as nat, len, bulk),
        r matches DecodeStep::Done(_, c) ==> 0 < c <= input@.len() - pos,
{
    let ghost s = input@.skip(pos as int);
    match len {
        None => DecodeStep::Invalid(DecodeError::InvalidInteger),
        Some(n) => {
            if n == -1 {
                DecodeStep::Done(Value::Null, next)
            } else if n < 0 || n >= RESP_MAX_SIZE {
                DecodeStep::Invalid(DecodeError::InvalidBulkLength(n))
            } else {
                let n: usize = n as usize;
                let rest: usize = input.len() - pos - next;
                if rest < n + 2 {
                    DecodeStep::Incomplete(DecodeError::UnexpectedEof)
                } else {
                    let start: usize = pos + next;
                    if input[start + n] != 13u8 || input[start + n + 1] != 10u8 {
                        DecodeStep::Invalid(DecodeError::BulkMissingCrlf)
                    } else {
                        let data = vstd::slice::slice_subrange(input, start, start + n);
                        assert(data@ =~= s.subrange(next as int, next + n));
                        let bytes = ByteString(vstd::slice::slice_to_vec(data));
                        if bulk {
                            DecodeStep::Done(Value::BulkString(bytes), next + n + 2)
                        } else {
                            DecodeStep::Done(Value::String(bytes), next + n + 2)
                        }
                    }
                }
            }
        },
    }
}

/// Decodes the `count` elements of an array whose header line takes `next`
/// bytes from `pos`.
fn parse_array_at(input: &[u8], pos: usize, next: usize, count: usize, bulk: bool) -> (r: DecodeStep)
    requires
        pos <= input@.len(),
        0 < next <= input@.len() - pos,
    ensures
        r@ == wrap_array(parse_items(input@.skip(pos as int).skip(next as int), count as nat, bulk), next as nat),
        r matches DecodeStep::Done(_, c) ==> 0 < c <= input@.len() - pos,
    decreases input@.len() - pos, 0int,
{
    let ghost s = input@.skip(pos as int);
    let ghost body = s.skip(next as int);
    let mut items: Vec<Value> = Vec::new();
    let mut cur: usize = next;
    let mut j: usize = 0;
    proof {
        lemma_values_view(items@);
        assert(values_view(items@) =~= Seq::<SpecValue>::empty());
        assert(body.skip(0) =~= body);
    }
    while j < count
        invariant
            pos <= input@.len(),
            input@.len() == input.len(),
            s == input@.skip(pos as int),
            0 < next <= cur <= input@.len() - pos,
            j <= count,
            body == s.skip(next as int),
            parse_items(body, count as nat, bulk) == prepend(
                values_view(items@),
                (cur - next) as nat,
                parse_items(s.skip(cur as int), (count - j) as nat, bulk),
            ),
        decreases count - j,
    {
        let step = parse_value_at(input, pos + cur, bulk);
        assert(input@.skip((pos + cur) as int) =~= s.skip(cur as int));
        match step {
            DecodeStep::Done(v, c) => {
                proof {
                    let t2 = s.skip(cur as int);
                    lemma_parse_items_step(t2, (count - j) as nat, bulk, v@, c as nat);
                    assert(t2.skip(c as int) =~= s.skip(cur + c));
                    lemma_prepend_prepend(
                        values_view(items@),
                        (cur - next) as nat,
                        seq![v@],
                        c as nat,
                        parse_items(s.skip(cur + c), (count - j - 1) as nat, bulk),
                    );
                    lemma_values_view(items@);
                    lemma_values_view(items@.push(v));
                    assert(values_view(items@.push(v)) =~= values_view(items@) + seq![v@]);
                }
                items.push(v);
                cur = cur + c;
                j = j + 1;
            },
            DecodeStep::Incomplete(e) => {
                return DecodeStep::Incomplete(e);
            },
            DecodeStep::Invalid(e) => {
                return DecodeStep::Invalid(e);
            },
        }
    }
    assert(parse_items(s.skip(cur as int), 0, bulk) == Parsed::<Seq<SpecValue>>::Done(Seq::empty(), 0));
    assert(values_view(items@) + Seq::<SpecValue>::empty() =~= values_view(items@));
    DecodeStep::Done(Value::Array(items), cur)
}

/// Decodes RESP values from bytes as they arrive, keeping what has not
/// been decoded yet.
#[derive(Debug)]
pub struct Decoder {
    buf_bulk: bool,
    pending: Vec<u8>,
}

impl Decoder {
    /// Whether bulk strings are kept as bulk strings (else they are read as
    /// simple strings).
    pub closed spec fn bulk_mode(&self) -> bool {
        self.buf_bulk
    }

    /// The bytes received and not yet decoded.
    pub closed spec fn pending(&self) -> Seq<u8> {
        self.pending@
    }

    /// A decoder that reads bulk strings as simple strings.
    pub fn new() -> (r: Decoder)
        ensures
            !r.bulk_mode(),
            r.pending() == Seq::<u8>::empty(),
    {
        Decoder { buf_bulk: false, pending: Vec::new() }
    }

    /// A decoder that keeps bulk strings as bulk strings.
    pub fn with_buf_bulk() -> (r: Decoder)
        ensures
            r.bulk_mode(),
            r.pending() == Seq::<u8>::empty(),
    {
        Decoder { buf_bulk: true, pending: Vec::new() }
    }

    /// Takes in bytes that have arrived.
    pub fn feed(&mut self, bytes: &[u8])
        ensures
            final(self).bulk_mode() == old(self).bulk_mode(),
            final(self).pending() == old(self).pending() + bytes@,
    {
        let mut i: usize = 0;
        while i < bytes.len()
            invariant
                i <= bytes.len(),
                self.buf_bulk == old(self).buf_bulk,
                self.pending@ == old(self).pending@ + bytes@.subrange(0, i as int),
            decreases bytes.len() - i,
        {
            self.pending.push(bytes[i]);
            i = i + 1;
            assert(self.pending@ =~= old(self).pending@ + bytes@.subrange(0, i as int));
        }
        assert(bytes@.subrange(0, bytes.len() as int) =~= bytes@);
    }

    /// Drops the first `c` pending bytes.
    fn consume(&mut self, c: usize)
        requires
            c <= old(self).pending().len(),
        ensures
            final(self).bulk_mode() == old(self).bulk_mode(),
            final(self).pending() == old(self).pending().skip(c as int),
    {
        let rest = vstd::slice::slice_to_vec(
            vstd::slice::slice_subrange(self.pending.as_slice(), c, self.pending.len()),
        );
        self.pending = rest;
    }

    /// Decodes the next value from the bytes received so far. `Ok(None)`
    /// means that they hold no complete value yet; the bytes stay pending.
    pub fn decode(&mut self) -> (r: Result<Option<Value>, DecodeError>)
        ensures
            final(self).bulk_mode() == old(self).bulk_mode(),
            match parse_value(old(self).pending(), old(self).bulk_mode()) {
                Parsed::Done(v, c) => {
                    &&& r matches Ok(Some(x)) && x@ == v
                    &&& final(self).pending() == old(self).pending().skip(c as int)
                },
                Parsed::Incomplete(_) => {
                    &&& r matches Ok(None)
                    &&& final(self).pending() == old(self).pending()
                },
                Parsed::Invalid(e) => {
                    &&& r == Err::<Option<Value>, DecodeError>(e)
                    &&& final(self).pending() == old(self).pending()
                },
            },
    {
        assert(self.pending@.skip(0) =~= self.pending@);
        match parse_value_at(self.pending.as_slice(), 0, self.buf_bulk) {
            DecodeStep::Done(v, c) => {
                self.consume(c);
                Ok(Some(v))
            },
            DecodeStep::Incomplete(_) => Ok(None),
            DecodeStep::Invalid(e) => Err(e),
        }
    }

    /// Decodes the next value once no more bytes will arrive: where the
    /// pending bytes end too early, that is the error.
    pub fn finish(&mut self) -> (r: Result<Value, DecodeError>)
        ensures
            final(self).bulk_mode() == old(self).bulk_mode(),
            match parse_value(old(self).pending(), old(self).bulk_mode()) {
                Parsed::Done(v, c) => {
                    &&& r matches Ok(x) && x@ == v
                    &&& final(self).pending() == old(self).pending().skip(c as int)
                },
                Parsed::Incomplete(e) => {
                    &&& r == Err::<Value, DecodeError>(e)
                    &&& final(self).pending() == old(self).pending()
                },
                Parsed::Invalid(e) => {
                    &&& r == Err::<Value, DecodeError>(e)
                    &&& final(self).pending() == old(self).pending()
                },
            },
    {
        assert(self.pending@.skip(0) =~= self.pending@);
        match parse_value_at(self.pending.as_slice(), 0, self.buf_bulk) {
            DecodeStep::Done(v, c) => {
                self.consume(c);
                Ok(v)
            },
            DecodeStep::Incomplete(e) => Err(e),
            DecodeStep::Invalid(e) => Err(e),
        }
    }
}

} // verus!
