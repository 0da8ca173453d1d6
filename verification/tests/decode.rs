use bbstore::decimal::parse_integer;
use bbstore::resp::decode::parse_value_at;
use bbstore::{DecodeError, Decoder, Value};

fn decode(input: &[u8]) -> Value {
    let mut decoder = Decoder::new();
    decoder.feed(input);
    decoder.finish().expect("decode failed")
}

fn decode_err(input: &[u8]) -> DecodeError {
    let mut decoder = Decoder::new();
    decoder.feed(input);
    decoder.finish().unwrap_err()
}

#[test]
fn simple_string() {
    assert_eq!(decode(b"+OK\r\n"), Value::String("OK".into()));
}

#[test]
fn error() {
    assert_eq!(
        decode(b"-ERR unknown command\r\n"),
        Value::Error("ERR unknown command".into())
    );
}

#[test]
fn integer() {
    assert_eq!(decode(b":42\r\n"), Value::Integer(42));
    assert_eq!(decode(b":-1\r\n"), Value::Integer(-1));
}

#[test]
fn null_bulk() {
    assert_eq!(decode(b"$-1\r\n"), Value::Null);
}

#[test]
fn null_array() {
    assert_eq!(decode(b"*-1\r\n"), Value::NullArray);
}

#[test]
fn null_resp3() {
    assert_eq!(decode(b"_\r\n"), Value::Null);
}

#[test]
fn boolean() {
    assert_eq!(decode(b"#t\r\n"), Value::Boolean(true));
    assert_eq!(decode(b"#f\r\n"), Value::Boolean(false));
}

#[test]
fn bulk_string() {
    let mut decoder = Decoder::with_buf_bulk();
    decoder.feed(b"$5\r\nhello\r\n");
    assert_eq!(
        decoder.finish().expect("decode failed"),
        Value::BulkString("hello".into())
    );
}

#[test]
fn bulk_string_as_string() {
    assert_eq!(decode(b"$5\r\nhello\r\n"), Value::String("hello".into()));
}

#[test]
fn array() {
    assert_eq!(
        decode(b"*2\r\n+foo\r\n:99\r\n"),
        Value::Array(vec![Value::String("foo".into()), Value::Integer(99)])
    );
}

#[test]
fn decode_empty_array() {
    assert_eq!(decode(b"*0\r\n"), Value::Array(vec![]));
}

#[test]
fn integer_limits() {
    assert_eq!(decode(b":9223372036854775807\r\n"), Value::Integer(i64::MAX));
    assert_eq!(decode(b":-9223372036854775808\r\n"), Value::Integer(i64::MIN));
    assert_eq!(decode(b":+7\r\n"), Value::Integer(7));
    assert_eq!(decode_err(b":9223372036854775808\r\n"), DecodeError::InvalidInteger);
    assert_eq!(decode_err(b":-9223372036854775809\r\n"), DecodeError::InvalidInteger);
    assert_eq!(decode_err(b":-\r\n"), DecodeError::InvalidInteger);
    assert_eq!(decode_err(b":1a\r\n"), DecodeError::InvalidInteger);
    assert_eq!(decode_err(b":\r\n"), DecodeError::InvalidInteger);
}

#[test]
fn each_error() {
    assert_eq!(decode_err(b""), DecodeError::UnexpectedEof);
    assert_eq!(decode_err(b"+OK"), DecodeError::MissingCrlf);
    assert_eq!(decode_err(b"+OK\n"), DecodeError::MissingCrlf);
    assert_eq!(decode_err(b"\r\n"), DecodeError::LineTooShort);
    assert_eq!(decode_err(b"#x\r\n"), DecodeError::InvalidBoolean);
    assert_eq!(decode_err(b"#tt\r\n"), DecodeError::InvalidBoolean);
    assert_eq!(decode_err(b"$-2\r\n"), DecodeError::InvalidBulkLength(-2));
    assert_eq!(decode_err(b"$536870912\r\n"), DecodeError::InvalidBulkLength(536870912));
    assert_eq!(decode_err(b"$3\r\nabcde"), DecodeError::BulkMissingCrlf);
    assert_eq!(decode_err(b"$3\r\nab"), DecodeError::UnexpectedEof);
    assert_eq!(decode_err(b"*-5\r\n"), DecodeError::InvalidArrayLength(-5));
    assert_eq!(decode_err(b"*2\r\n:1\r\n"), DecodeError::UnexpectedEof);
    assert_eq!(decode_err(b"!x\r\n"), DecodeError::InvalidTypeByte(b'!'));
}

#[test]
fn streaming_decode() {
    let mut decoder = Decoder::new();
    decoder.feed(b"*2\r\n$3\r\nfo");
    assert_eq!(decoder.decode(), Ok(None));
    decoder.feed(b"o\r\n:7\r\n+next\r");
    assert_eq!(
        decoder.decode(),
        Ok(Some(Value::Array(vec![Value::String("foo".into()), Value::Integer(7)])))
    );
    assert_eq!(decoder.decode(), Ok(None));
    decoder.feed(b"\n");
    assert_eq!(decoder.decode(), Ok(Some(Value::String("next".into()))));
    assert_eq!(decoder.decode(), Ok(None));
    assert_eq!(decoder.finish(), Err(DecodeError::UnexpectedEof));
}

#[test]
fn streaming_invalid_is_reported_at_once() {
    let mut decoder = Decoder::new();
    decoder.feed(b"?\r\n");
    assert_eq!(decoder.decode(), Err(DecodeError::InvalidTypeByte(b'?')));
}

#[test]
fn decode_what_was_encoded() {
    let v = Value::Array(vec![
        Value::BulkString("a\r\nb".into()),
        Value::Error("bad".into()),
        Value::Array(vec![Value::Integer(-5), Value::Boolean(false), Value::Null, Value::NullArray]),
    ]);
    let bytes = v.encode();
    let mut decoder = Decoder::with_buf_bulk();
    decoder.feed(bytes.as_bytes());
    decoder.feed(b"+rest\r\n");
    assert_eq!(decoder.decode(), Ok(Some(v)));
    assert_eq!(decoder.decode(), Ok(Some(Value::String("rest".into()))));
}

#[test]
fn parse_at_offset() {
    let input = b"xx:12\r\n";
    match parse_value_at(input, 2, false) {
        bbstore::resp::decode::DecodeStep::Done(v, used) => {
            assert_eq!(v, Value::Integer(12));
            assert_eq!(used, 5);
        }
        _ => panic!("expected a value"),
    }
}

#[test]
fn parse_integer_cases() {
    assert_eq!(parse_integer(b"0"), Some(0));
    assert_eq!(parse_integer(b"-0"), Some(0));
    assert_eq!(parse_integer(b"+"), None);
    assert_eq!(parse_integer(b""), None);
    assert_eq!(parse_integer(b"00012"), Some(12));
    assert_eq!(parse_integer(b"99999999999999999999999"), None);
    assert_eq!(parse_integer(b" 1"), None);
}

#[test]
fn decoder_modes_agree() {
    let input = b"*2\r\n$2\r\nab\r\n*1\r\n$0\r\n\r\n";
    let mut plain = Decoder::new();
    plain.feed(input);
    let mut bulk = Decoder::with_buf_bulk();
    bulk.feed(input);
    assert_eq!(
        plain.finish().unwrap(),
        Value::Array(vec![Value::String("ab".into()), Value::Array(vec![Value::String("".into())])])
    );
    assert_eq!(
        bulk.finish().unwrap(),
        Value::Array(vec![Value::BulkString("ab".into()), Value::Array(vec![Value::BulkString("".into())])])
    );
    let mut plain = Decoder::new();
    plain.feed(b"$2\r\nabcd");
    let mut bulk = Decoder::with_buf_bulk();
    bulk.feed(b"$2\r\nabcd");
    assert_eq!(plain.finish(), Err(DecodeError::BulkMissingCrlf));
    assert_eq!(bulk.finish(), Err(DecodeError::BulkMissingCrlf));
}
