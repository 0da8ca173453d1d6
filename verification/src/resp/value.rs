//! RESP values, their model, their encoding on the wire, and their
//! human-readable rendering.

use vstd::prelude::*;

use crate::bytes::ByteString;
use crate::decimal::{decimal_of, digits_of, push_decimal, push_digits};
use crate::resp::crlf;
use crate::decimal::ascii_chars;
use crate::text::{lossy_decode, push_char, push_decimal_str, push_str};

verus! {

/// A RESP value.
#[derive(Debug, PartialEq, Eq)]
pub enum Value {
    Null,
    NullArray,
    String(ByteString),
    Error(ByteString),
    Integer(i64),
    BulkString(ByteString),
    Array(Vec<Value>),
    Boolean(bool),
}

/// The mathematical model of a [`Value`]: byte strings as sequences.
pub enum SpecValue {
    Null,
    NullArray,
    String(Seq<u8>),
    Error(Seq<u8>),
    Integer(i64),
    BulkString(Seq<u8>),
    Array(Seq<SpecValue>),
    Boolean(bool),
}

/// The model of a value.
pub open spec fn value_view(v: Value) -> SpecValue
    decreases v,
{
    match v {
        Value::Null => SpecValue::Null,
        Value::NullArray => SpecValue::NullArray,
        Value::String(s) => SpecValue::String(s@),
        Value::Error(s) => SpecValue::Error(s@),
        Value::Integer(i) => SpecValue::Integer(i),
        Value::BulkString(s) => SpecValue::BulkString(s@),
        Value::Array(vs) => SpecValue::Array(values_view(vs@)),
        Value::Boolean(b) => SpecValue::Boolean(b),
    }
}

/// The models of a sequence of values.
pub open spec fn values_view(vs: Seq<Value>) -> Seq<SpecValue>
    decreases vs,
{
    if vs.len() == 0 {
        Seq::empty()
    } else {
        values_view(vs.subrange(0, vs.len() - 1)).push(value_view(vs[vs.len() - 1]))
    }
}

impl View for Value {
    type V = SpecValue;

    open spec fn view(&self) -> SpecValue {
        value_view(*self)
    }
}

/// `values_view` maps each value to its model, one for one.
pub proof fn lemma_values_view(vs: Seq<Value>)
    ensures
        values_view(vs).len() == vs.len(),
        forall|i: int| 0 <= i < vs.len() ==> #[trigger] values_view(vs)[i] == value_view(vs[i]),
    decreases vs.len(),
{
    if vs.len() > 0 {
        let init = vs.subrange(0, vs.len() - 1);
        lemma_values_view(init);
        assert forall|i: int| 0 <= i < vs.len() implies #[trigger] values_view(vs)[i] == value_view(vs[i]) by {
            if i < vs.len() - 1 {
                assert(init[i] == vs[i]);
            }
        }
    }
}

/// The bytes that encode `v` on the wire.
pub open spec fn spec_encode(v: SpecValue) -> Seq<u8>
    decreases v,
{
    match v {
        SpecValue::Null => seq![95u8] + crlf(),
        SpecValue::NullArray => seq![42u8, 45u8, 49u8] + crlf(),
        SpecValue::String(s) => seq![43u8] + s + crlf(),
        SpecValue::Error(s) => seq![45u8] + s + crlf(),
        SpecValue::Integer(i) => seq![58u8] + decimal_of(i as int) + crlf(),
        SpecValue::BulkString(s) => seq![36u8] + digits_of(s.len()) + crlf() + s + crlf(),
        SpecValue::Boolean(b) => seq![35u8, if b { 116u8 } else { 102u8 }] + crlf(),
        SpecValue::Array(vs) => seq![42u8] + digits_of(vs.len()) + crlf() + spec_encode_all(vs),
    }
}

/// The encodings of `vs`, one after the other.
pub open spec fn spec_encode_all(vs: Seq<SpecValue>) -> Seq<u8>
    decreases vs,
{
    if vs.len() == 0 {
        Seq::empty()
    } else {
        spec_encode_all(vs.subrange(0, vs.len() - 1)) + spec_encode(vs[vs.len() - 1])
    }
}

fn push_crlf(out: &mut Vec<u8>)
    ensures
        final(out)@ == old(out)@ + crlf(),
{
    out.push(13u8);
    out.push(10u8);
    assert(final(out)@ =~= old(out)@ + crlf());
}

fn push_bytes(out: &mut Vec<u8>, bytes: &[u8])
    ensures
        final(out)@ == old(out)@ + bytes@,
{
    let mut i: usize = 0;
    while i < bytes.len()
        invariant
            i <= bytes.len(),
            out@ == old(out)@ + bytes@.subrange(0, i as int),
        decreases bytes.len() - i,
    {
        out.push(bytes[i]);
        i = i + 1;
        assert(out@ =~= old(out)@ + bytes@.subrange(0, i as int));
    }
    assert(bytes@.subrange(0, bytes.len() as int) =~= bytes@);
}

impl Value {
    /// Appends the wire encoding of this value to `out`.
    fn encode_into(&self, out: &mut Vec<u8>)
        ensures
            final(out)@ == old(out)@ + spec_encode(self@),
        decreases self,
    {
        match self {
            Value::Null => {
                out.push(95u8);
                push_crlf(out);
            },
            Value::NullArray => {
                out.push(42u8);
                out.push(45u8);
                out.push(49u8);
                push_crlf(out);
            },
            Value::String(val) => {
                out.push(43u8);
                push_bytes(out, val.as_bytes());
                push_crlf(out);
            },
            Value::Error(val) => {
                out.push(45u8);
                push_bytes(out, val.as_bytes());
                push_crlf(out);
            },
            Value::Integer(val) => {
                out.push(58u8);
                push_decimal(out, *val);
                push_crlf(out);
            },
            Value::BulkString(val) => {
                out.push(36u8);
                push_digits(out, val.len() as u64);
                push_crlf(out);
                push_bytes(out, val.as_bytes());
                push_crlf(out);
            },
            Value::Boolean(val) => {
                out.push(35u8);
                out.push(if *val { 116u8 } else { 102u8 });
                push_crlf(out);
            },
            Value::Array(vals) => {
                out.push(42u8);
                push_digits(out, vals.len() as u64);
                push_crlf(out);
                let ghost head = out@;
                proof {
                    lemma_values_view(vals@);
                }
                let mut i: usize = 0;
                while i < vals.len()
                    invariant
                        i <= vals.len(),
                        values_view(vals@).len() == vals@.len(),
                        forall|j: int| 0 <= j < vals@.len() ==> #[trigger] values_view(vals@)[j] == value_view(vals@[j]),
                        *self == Value::Array(*vals),
                        out@ == head + spec_encode_all(values_view(vals@).subrange(0, i as int)),
                    decreases vals.len() - i,
                {
                    proof {
                        assert(decreases_to!(*vals => vals[i as int]));
                        assert(decreases_to!(Value::Array(*vals) => Value::Array(*vals)->Array_0));
                        assert(decreases_to!(*self => vals[i as int]));
                    }
                    vals[i].encode_into(out);
                    proof {
                        let vs = values_view(vals@);
                        assert(vs.subrange(0, i + 1).subrange(0, i as int) =~= vs.subrange(0, i as int));
                    }
                    i = i + 1;
                }
                assert(values_view(vals@).subrange(0, vals.len() as int) =~= values_view(vals@));
            },
        }
        assert(final(out)@ =~= old(out)@ + spec_encode(self@));
    }

    /// The wire encoding of this value.
    pub fn encode(&self) -> (r: ByteString)
        ensures
            r@ == spec_encode(self@),
    {
        let mut out: Vec<u8> = Vec::new();
        self.encode_into(&mut out);
        assert(out@ =~= spec_encode(self@));
        ByteString(out)
    }
}

/// How deep arrays nest in `v`.
pub open spec fn depth(v: SpecValue) -> nat
    decreases v,
{
    match v {
        SpecValue::Array(vs) => 1 + depth_all(vs),
        _ => 0,
    }
}

/// How deep arrays nest in the deepest of `vs`.
pub open spec fn depth_all(vs: Seq<SpecValue>) -> nat
    decreases vs,
{
    if vs.len() == 0 {
        0
    } else {
        let d = depth(vs[vs.len() - 1]);
        let rest = depth_all(vs.subrange(0, vs.len() - 1));
        if d > rest {
            d
        } else {
            rest
        }
    }
}

/// `n` tab characters.
pub open spec fn tabs(n: nat) -> Seq<char> {
    Seq::new(n, |i: int| '\t')
}

/// The human-readable rendering of `v`.
pub open spec fn spec_pretty(v: SpecValue) -> Seq<char>
    decreases v, 3int,
{
    match v {
        SpecValue::Null => seq!['(', 'n', 'i', 'l', ')'],
        SpecValue::NullArray => seq!['(', 'n', 'u', 'l', 'l', ' ', 'a', 'r', 'r', 'a', 'y', ')'],
        SpecValue::String(s) => lossy_decode(s),
        SpecValue::Error(s) => seq!['(', 'e', 'r', 'r', 'o', 'r', ')', ' '] + lossy_decode(s),
        SpecValue::Integer(i) => seq!['(', 'i', 'n', 't', 'e', 'g', 'e', 'r', ')', ' ']
            + ascii_chars(decimal_of(i as int)),
        SpecValue::BulkString(s) => lossy_decode(s),
        SpecValue::Boolean(b) => if b {
            seq!['(', 't', 'r', 'u', 'e', ')']
        } else {
            seq!['(', 'f', 'a', 'l', 's', 'e', ')']
        },
        SpecValue::Array(vs) => spec_format_array(vs, 0),
    }
}

/// The rendering of the elements of an array nested `indent` deep: one
/// line ` - ` per element, every line but the first indented by `indent`
/// tabs, and nested arrays rendered one level deeper.
pub open spec fn spec_format_array(vs: Seq<SpecValue>, indent: nat) -> Seq<char>
    decreases vs, 2int,
{
    if vs.len() == 0 {
        seq!['e', 'm', 'p', 't', 'y', ' ', 'a', 'r', 'r', 'a', 'y']
    } else {
        spec_format_entries(vs, indent)
    }
}

/// The lines of the elements `vs`, each as `spec_format_entry` renders it.
pub open spec fn spec_format_entries(vs: Seq<SpecValue>, indent: nat) -> Seq<char>
    decreases vs, 1int,
{
    if vs.len() == 0 {
        Seq::empty()
    } else {
        spec_format_entries(vs.subrange(0, vs.len() - 1), indent)
            + spec_format_entry(vs[vs.len() - 1], indent, vs.len() == 1)
    }
}

/// The line of one element: the indent (unless it is the first), ` - `,
/// the element, and a line break.
pub open spec fn spec_format_entry(v: SpecValue, indent: nat, first: bool) -> Seq<char>
    decreases v, 4int,
{
    let body = match v {
        SpecValue::Array(inner) => spec_format_array(inner, indent + 1),
        _ => spec_pretty(v),
    };
    (if first {
        Seq::empty()
    } else {
        tabs(indent)
    }) + seq![' ', '-', ' '] + body + seq!['\n']
}

/// The elements of `vs` are no deeper than `vs`.
proof fn lemma_depth_all(vs: Seq<SpecValue>, i: int)
    requires
        0 <= i < vs.len(),
    ensures
        depth(vs[i]) <= depth_all(vs),
    decreases vs.len(),
{
    if i < vs.len() - 1 {
        let init = vs.subrange(0, vs.len() - 1);
        lemma_depth_all(init, i);
        assert(init[i] == vs[i]);
    }
}

impl Value {
    /// The human-readable rendering of this value.
    pub fn to_string_pretty(&self) -> (r: String)
        requires
            depth(self@) <= usize::MAX,
        ensures
            r@ == spec_pretty(self@),
        decreases self, 3int,
    {
        let mut res = String::new();
        match self {
            Value::Null => {
                push_str(&mut res, "(nil)");
                proof { reveal_strlit("(nil)"); }
            },
            Value::NullArray => {
                push_str(&mut res, "(null array)");
                proof { reveal_strlit("(null array)"); }
            },
            Value::String(val) => {
                res = val.to_string();
            },
            Value::Error(val) => {
                push_str(&mut res, "(error) ");
                proof { reveal_strlit("(error) "); }
                let text = val.to_string();
                push_str(&mut res, text.as_str());
            },
            Value::Integer(val) => {
                push_str(&mut res, "(integer) ");
                proof { reveal_strlit("(integer) "); }
                push_decimal_str(&mut res, *val);
            },
            Value::BulkString(val) => {
                res = val.to_string();
            },
            Value::Boolean(val) => {
                if *val {
                    push_str(&mut res, "(true)");
                    proof { reveal_strlit("(true)"); }
                } else {
                    push_str(&mut res, "(false)");
                    proof { reveal_strlit("(false)"); }
                }
            },
            Value::Array(vals) => {
                proof {
                    assert(decreases_to!(Value::Array(*vals) => Value::Array(*vals)->Array_0));
                }
                res = Self::format_array(vals, 0);
            },
        }
        assert(res@ =~= spec_pretty(self@));
        res
    }

    /// Renders the elements of an array nested `indent_level` deep.
    fn format_array(vals: &Vec<Value>, indent_level: usize) -> (r: String)
        requires
            indent_level + depth_all(values_view(vals@)) <= usize::MAX,
        ensures
            r@ == spec_format_array(values_view(vals@), indent_level as nat),
        decreases vals, 2int,
    {
        let ghost vs = values_view(vals@);
        proof {
            lemma_values_view(vals@);
        }
        if vals.len() == 0 {
            let mut res = String::new();
            push_str(&mut res, "empty array");
            proof { reveal_strlit("empty array"); }
            assert(res@ =~= spec_format_array(vs, indent_level as nat));
            return res;
        }
        let mut res = String::new();
        let mut idx: usize = 0;
        while idx < vals.len()
            invariant
                idx <= vals.len(),
                vs == values_view(vals@),
                vs.len() == vals@.len(),
                vs.len() > 0,
                forall|j: int| 0 <= j < vals@.len() ==> #[trigger] vs[j] == value_view(vals@[j]),
                indent_level + depth_all(vs) <= usize::MAX,
                res@ == spec_format_entries(vs.subrange(0, idx as int), indent_level as nat),
            decreases vals.len() - idx,
        {
            let ghost before = res@;
            if idx != 0 {
                let mut t: usize = 0;
                while t < indent_level
                    invariant
                        t <= indent_level,
                        res@ == before + tabs(t as nat),
                    decreases indent_level - t,
                {
                    push_char(&mut res, '\t');
                    t = t + 1;
                    assert(res@ =~= before + tabs(t as nat));
                }
            }
            push_str(&mut res, " - ");
            proof {
                reveal_strlit(" - ");
                lemma_depth_all(vs, idx as int);
                assert(decreases_to!(*vals => vals[idx as int]));
            }
            let val = &vals[idx];
            let text = match val {
                Value::Array(inner) => {
                    proof {
                        assert(decreases_to!(Value::Array(*inner) => Value::Array(*inner)->Array_0));
                        assert(depth(vs[idx as int]) == 1 + depth_all(values_view(inner@)));
                    }
                    Self::format_array(inner, indent_level + 1)
                },
                _ => val.to_string_pretty(),
            };
            assert(text@ == match vs[idx as int] {
                SpecValue::Array(inner) => spec_format_array(inner, (indent_level + 1) as nat),
                _ => spec_pretty(vs[idx as int]),
            });
            push_str(&mut res, text.as_str());
            push_char(&mut res, '\n');
            proof {
                let sub = vs.subrange(0, idx + 1);
                assert(sub.subrange(0, idx as int) =~= vs.subrange(0, idx as int));
                assert(sub[idx as int] == vs[idx as int]);
                let pre: Seq<char> = if idx == 0 { Seq::empty() } else { tabs(indent_level as nat) };
                assert(res@ =~= before + pre + seq![' ', '-', ' '] + text@ + seq!['\n']);
                assert(spec_format_entry(vs[idx as int], indent_level as nat, idx == 0) =~= pre + seq![' ', '-', ' '] + text@ + seq!['\n']);
                assert(spec_format_entries(sub, indent_level as nat) == spec_format_entries(vs.subrange(0, idx as int), indent_level as nat) + spec_format_entry(vs[idx as int], indent_level as nat, idx == 0));
                assert(res@ =~= spec_format_entries(sub, indent_level as nat));
            }
            idx = idx + 1;
        }
        assert(vs.subrange(0, vals.len() as int) =~= vs);
        res
    }
}

impl Value {
    /// A copy of this value.
    fn deep_copy(&self) -> (r: Value)
        ensures
            r@ == self@,
        decreases self,
    {
        match self {
            Value::Null => Value::Null,
            Value::NullArray => Value::NullArray,
            Value::String(s) => Value::String(ByteString(vstd::slice::slice_to_vec(s.as_bytes()))),
            Value::Error(s) => Value::Error(ByteString(vstd::slice::slice_to_vec(s.as_bytes()))),
            Value::Integer(i) => Value::Integer(*i),
            Value::BulkString(s) => Value::BulkString(ByteString(vstd::slice::slice_to_vec(s.as_bytes()))),
            Value::Boolean(b) => Value::Boolean(*b),
            Value::Array(vals) => {
                proof {
                    assert(decreases_to!(Value::Array(*vals) => Value::Array(*vals)->Array_0));
                    lemma_values_view(vals@);
                }
                let mut items: Vec<Value> = Vec::new();
                let mut i: usize = 0;
                while i < vals.len()
                    invariant
                        i <= vals.len(),
                        *self == Value::Array(*vals),
                        values_view(vals@).len() == vals@.len(),
                        forall|j: int| 0 <= j < vals@.len() ==> #[trigger] values_view(vals@)[j] == value_view(vals@[j]),
                        values_view(items@) == values_view(vals@).subrange(0, i as int),
                    decreases vals.len() - i,
                {
                    proof {
                        assert(decreases_to!(Value::Array(*vals) => Value::Array(*vals)->Array_0));
                        assert(decreases_to!(*vals => vals[i as int]));
                        lemma_values_view(items@);
                    }
                    let v = vals[i].deep_copy();
                    let ghost before = items@;
                    items.push(v);
                    proof {
                        lemma_values_view(items@);
                        lemma_values_view(before);
                        assert(values_view(items@) =~= values_view(vals@).subrange(0, i + 1));
                    }
                    i = i + 1;
                }
                proof {
                    lemma_values_view(items@);
                }
                assert(values_view(vals@).subrange(0, vals.len() as int) =~= values_view(vals@));
                Value::Array(items)
            },
        }
    }
}

impl Clone for Value {
    fn clone(&self) -> (r: Value)
        ensures
            r@ == self@,
    {
        self.deep_copy()
    }
}

/// What stands after ` - ` on the line of an element of an array nested
/// `indent` deep: a nested array rendered one level deeper, else the element.
pub open spec fn element_text(v: SpecValue, indent: nat) -> Seq<char> {
    match v {
        SpecValue::Array(inner) => spec_format_array(inner, indent + 1),
        _ => spec_pretty(v),
    }
}

/// The lines of the elements of an array nested `indent` deep: the line of
/// element `i` is `indent` tabs (none for the first element), ` - `, the
/// element's text, and a line break.
pub open spec fn element_lines(vs: Seq<SpecValue>, indent: nat) -> Seq<Seq<char>> {
    Seq::new(
        vs.len(),
        |i: int|
            (if i == 0 {
                Seq::<char>::empty()
            } else {
                tabs(indent)
            }) + seq![' ', '-', ' '] + element_text(vs[i], indent) + seq!['\n'],
    )
}

/// An array nested `indent` deep renders as the lines of its elements, one
/// after the other, every line but the first starting with `indent` tabs;
/// an empty array renders as `empty array`.
pub proof fn lemma_format_array_lines(vs: Seq<SpecValue>, indent: nat)
    ensures
        vs.len() > 0 ==> spec_format_array(vs, indent) == element_lines(vs, indent).flatten(),
        vs.len() == 0 ==> spec_format_array(vs, indent) == seq!['e', 'm', 'p', 't', 'y', ' ', 'a', 'r', 'r', 'a', 'y'],
{
    lemma_format_entries_lines(vs, indent);
}

proof fn lemma_format_entries_lines(vs: Seq<SpecValue>, indent: nat)
    ensures
        spec_format_entries(vs, indent) == element_lines(vs, indent).flatten(),
    decreases vs.len(),
{
    if vs.len() == 0 {
        assert(element_lines(vs, indent) =~= Seq::<Seq<char>>::empty());
    } else {
        let n = vs.len() as int;
        let init = vs.subrange(0, n - 1);
        lemma_format_entries_lines(init, indent);
        let lines = element_lines(vs, indent);
        assert(lines =~= element_lines(init, indent).push(lines[n - 1]));
        element_lines(init, indent).lemma_flatten_push(lines[n - 1]);
        assert(lines[n - 1] =~= spec_format_entry(vs[n - 1], indent, n == 1));
    }
}

/// How single values render, against their text and their encoding: a
/// bulk string and a simple string with the same bytes render alike, as the
/// bytes decoded; an error renders as `(error) ` and what its bytes would
/// render as a string; an integer as `(integer) ` and the digits its
/// encoding carries.
pub proof fn lemma_pretty_single_values(s: Seq<u8>, i: i64)
    ensures
        spec_pretty(SpecValue::BulkString(s)) == spec_pretty(SpecValue::String(s)),
        spec_pretty(SpecValue::String(s)) == lossy_decode(s),
        spec_pretty(SpecValue::Error(s)) == seq!['(', 'e', 'r', 'r', 'o', 'r', ')', ' '] + spec_pretty(SpecValue::String(s)),
        ({
            let e = spec_encode(SpecValue::Integer(i));
            spec_pretty(SpecValue::Integer(i)) == seq!['(', 'i', 'n', 't', 'e', 'g', 'e', 'r', ')', ' ']
                + ascii_chars(e.subrange(1, e.len() - 2))
        }),
{
    let e = spec_encode(SpecValue::Integer(i));
    assert(e.subrange(1, e.len() - 2) =~= decimal_of(i as int));
}

} // verus!
