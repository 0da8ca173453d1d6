use bbstore::{ByteStr, ByteString, Value};

#[test]
fn null_pretty() {
    assert_eq!(Value::Null.to_string_pretty(), "(nil)");
}

#[test]
fn null_array_pretty() {
    assert_eq!(Value::NullArray.to_string_pretty(), "(null array)");
}

#[test]
fn string_pretty() {
    assert_eq!(Value::String("hello".into()).to_string_pretty(), "hello");
}

#[test]
fn error_pretty() {
    assert_eq!(
        Value::Error("ERR unknown command".into()).to_string_pretty(),
        "(error) ERR unknown command"
    );
}

#[test]
fn integer_pretty() {
    assert_eq!(Value::Integer(42).to_string_pretty(), "(integer) 42");
    assert_eq!(Value::Integer(-1).to_string_pretty(), "(integer) -1");
    assert_eq!(Value::Integer(0).to_string_pretty(), "(integer) 0");
}

#[test]
fn bulk_string_pretty() {
    assert_eq!(Value::BulkString("foo".into()).to_string_pretty(), "foo");
}

#[test]
fn boolean_pretty() {
    assert_eq!(Value::Boolean(true).to_string_pretty(), "(true)");
    assert_eq!(Value::Boolean(false).to_string_pretty(), "(false)");
}

#[test]
fn empty_array_pretty() {
    assert_eq!(Value::Array(vec![]).to_string_pretty(), "empty array");
}

#[test]
fn flat_array_pretty() {
    let arr = Value::Array(vec![
        Value::String("a".into()),
        Value::Integer(1),
        Value::Null,
    ]);
    assert_eq!(
        arr.to_string_pretty(),
        " - a
 - (integer) 1
 - (nil)
"
    );
}

#[test]
fn nested_array_pretty() {
    let inner = Value::Array(vec![Value::String("x".into()), Value::String("y".into())]);
    let outer = Value::Array(vec![Value::String("top".into()), inner]);
    assert_eq!(
        outer.to_string_pretty(),
        " - top
 -  - x
	 - y

"
    );
}

#[test]
fn deeper_nesting_pretty() {
    let v = Value::Array(vec![
        Value::Integer(i64::MIN),
        Value::Array(vec![Value::Array(vec![]), Value::Array(vec![Value::Boolean(true), Value::NullArray])]),
    ]);
    assert_eq!(
        v.to_string_pretty(),
        " - (integer) -9223372036854775808\n -  - empty array\n\t -  - (true)\n\t\t - (null array)\n\n\n"
    );
}

#[test]
fn invalid_utf8_pretty() {
    let v = Value::BulkString(vec![0x66, 0x80, 0x6f].into());
    assert_eq!(v.to_string_pretty(), "f\u{fffd}o");
}

#[test]
fn encode_each_kind() {
    assert_eq!(Value::Null.encode().as_bytes(), b"_\r\n");
    assert_eq!(Value::NullArray.encode().as_bytes(), b"*-1\r\n");
    assert_eq!(Value::String("OK".into()).encode().as_bytes(), b"+OK\r\n");
    assert_eq!(Value::Error("ERR x".into()).encode().as_bytes(), b"-ERR x\r\n");
    assert_eq!(Value::Integer(-42).encode().as_bytes(), b":-42\r\n");
    assert_eq!(Value::Integer(i64::MIN).encode().as_bytes(), b":-9223372036854775808\r\n");
    assert_eq!(Value::BulkString("hello".into()).encode().as_bytes(), b"$5\r\nhello\r\n");
    assert_eq!(Value::BulkString("".into()).encode().as_bytes(), b"$0\r\n\r\n");
    assert_eq!(Value::Boolean(true).encode().as_bytes(), b"#t\r\n");
    assert_eq!(Value::Boolean(false).encode().as_bytes(), b"#f\r\n");
    assert_eq!(
        Value::Array(vec![Value::String("foo".into()), Value::Integer(99)]).encode().as_bytes(),
        b"*2\r\n+foo\r\n:99\r\n"
    );
    assert_eq!(Value::Array(vec![]).encode().as_bytes(), b"*0\r\n");
}

#[test]
fn byte_strings() {
    let b = ByteString::from("h\u{e9}");
    assert_eq!(b.as_bytes(), &[0x68, 0xc3, 0xa9]);
    assert_eq!(b.len(), 3);
    assert!(!b.is_empty());
    assert_eq!(b.to_string(), "h\u{e9}");
    assert_eq!(ByteString::from(String::from("ab")).as_bytes(), b"ab");
    assert_eq!(ByteString::from(vec![1u8, 2]).as_bytes(), &[1, 2]);
    let s = ByteStr::new(b"xy");
    assert_eq!(s.0, b"xy");
    assert_eq!(b.as_byte_str().0, &[0x68, 0xc3, 0xa9]);
}

#[test]
fn clone_copies_deeply() {
    let v = Value::Array(vec![Value::BulkString("a".into()), Value::Array(vec![Value::Integer(3)])]);
    let c = v.clone();
    assert_eq!(c, v);
}
