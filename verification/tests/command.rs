use bbstore::{Command, ProtocolError, Value};

fn arr(args: &[&str]) -> Value {
    Value::Array(
        args.iter()
            .map(|s| Value::BulkString((*s).into()))
            .collect(),
    )
}

fn parse(args: &[&str]) -> Result<Command, ProtocolError> {
    Command::try_from(arr(args))
}

#[test]
fn get() {
    let cmd: Command = parse(&["GET", "mykey"]).unwrap();
    assert!(matches!(cmd, Command::Get { key } if key == "mykey"));
}

#[test]
fn set() {
    let cmd: Command = parse(&["SET", "mykey", "myvalue"]).unwrap();
    assert!(matches!(cmd, Command::SetKey { key, value } if key == "mykey" && value == "myvalue"));
}

#[test]
fn command_set_value_with_spaces() {
    let cmd = parse(&["SET", "mykey", "hello world"]).unwrap();
    assert!(
        matches!(cmd, Command::SetKey { key, value } if key == "mykey" && value == "hello world")
    );
}

#[test]
fn config_rewrite() {
    assert!(matches!(
        parse(&["CONFIG", "REWRITE"]).unwrap(),
        Command::Config(_)
    ));
}

#[test]
fn unknown_command() {
    assert!(parse(&["UNKNOWN", "mykey"]).is_err());
}

#[test]
fn unknown_config_subcommand() {
    let err = parse(&["CONFIG", "UNKNOWN"]).unwrap_err();
    assert!(
        matches!(err, ProtocolError::UnknownSubcommand { ref command, .. } if command == "CONFIG")
    );
}

#[test]
fn command_empty_array() {
    assert!(matches!(
        Command::try_from(arr(&[])).unwrap_err(),
        ProtocolError::EmptyCommand
    ));
}

#[test]
fn command_get_missing_key() {
    let err = parse(&["GET"]).unwrap_err();
    assert!(
        matches!(err, ProtocolError::RequiredArguments { ref command, .. } if command == "GET")
    );
}

#[test]
fn set_missing_value() {
    let err = parse(&["SET", "mykey"]).unwrap_err();
    assert!(
        matches!(err, ProtocolError::InvalidNumberOfArguments { ref command, .. } if command == "SET")
    );
}

#[test]
fn from_str_get_empty_key() {
    let err = parse(&["GET", ""]).unwrap_err();
    assert!(
        matches!(err, ProtocolError::RequiredArguments { ref command, .. } if command == "GET")
    );
}

#[test]
fn from_str_get_extra_argument() {
    let err = parse(&["GET", "mykey", "extra"]).unwrap_err();
    assert!(matches!(
        err,
        ProtocolError::InvalidNumberOfArguments { expected: 1, .. }
    ));
}

#[test]
fn from_str_set_no_args() {
    let err = parse(&["SET"]).unwrap_err();
    assert!(
        matches!(err, ProtocolError::InvalidNumberOfArguments { ref command, .. } if command == "SET")
    );
}

#[test]
fn from_str_set_empty_key() {
    let err = parse(&["SET", ""]).unwrap_err();
    assert!(
        matches!(err, ProtocolError::InvalidNumberOfArguments { ref command, .. } if command == "SET")
    );
}

#[test]
fn from_str_config_no_subcommand() {
    let err = parse(&["CONFIG"]).unwrap_err();
    assert!(
        matches!(err, ProtocolError::RequiredArguments { ref command, .. } if command == "CONFIG")
    );
}

#[test]
fn display_roundtrip_get() {
    let original = "GET mykey";
    assert_eq!(parse(&["GET", "mykey"]).unwrap().to_string(), original);
}

#[test]
fn display_roundtrip_set() {
    let original = "SET mykey myvalue";
    assert_eq!(
        parse(&["SET", "mykey", "myvalue"]).unwrap().to_string(),
        original
    );
}

#[test]
fn display_roundtrip_set_value_with_spaces() {
    let original = "SET mykey hello world";
    assert_eq!(
        parse(&["SET", "mykey", "hello world"]).unwrap().to_string(),
        original
    );
}

#[test]
fn display_roundtrip_config_rewrite() {
    let original = "CONFIG REWRITE";
    assert_eq!(parse(&["CONFIG", "REWRITE"]).unwrap().to_string(), original);
}

#[test]
fn verb_in_any_case() {
    assert!(matches!(parse(&["get", "k"]).unwrap(), Command::Get { key } if key == "k"));
    assert!(matches!(parse(&["cOnFiG", "rewrite"]).unwrap(), Command::Config(_)));
}

#[test]
fn verb_upper_cased_by_unicode_rules() {
    // U+017F LATIN SMALL LETTER LONG S upper-cases to `S`.
    assert!(matches!(
        parse(&["\u{17f}et", "k", "v"]).unwrap(),
        Command::SetKey { key, value } if key == "k" && value == "v"
    ));
}

#[test]
fn unknown_command_is_named_in_upper_case() {
    let err = parse(&["hello"]).unwrap_err();
    assert!(matches!(err, ProtocolError::UnknownCommand(ref c) if c == "HELLO"));
}

#[test]
fn verb_must_be_a_bulk_string() {
    let err = Command::try_from(Value::Array(vec![Value::String("GET".into())])).unwrap_err();
    assert!(matches!(err, ProtocolError::EmptyCommand));
    let err = Command::try_from(Value::Integer(3)).unwrap_err();
    assert!(matches!(err, ProtocolError::EmptyCommand));
}

#[test]
fn set_with_a_non_bulk_argument_requires_key_and_value() {
    let err = Command::try_from(Value::Array(vec![
        Value::BulkString("SET".into()),
        Value::BulkString("k".into()),
        Value::Integer(1),
    ]))
    .unwrap_err();
    assert!(
        matches!(err, ProtocolError::RequiredArguments { ref command, ref arguments } if command == "SET" && arguments == "key and value")
    );
}

#[test]
fn config_with_two_arguments() {
    let err = parse(&["CONFIG", "REWRITE", "x"]).unwrap_err();
    assert!(matches!(
        err,
        ProtocolError::InvalidNumberOfArguments { expected: 1, received: 2, .. }
    ));
}

#[test]
fn invalid_utf8_key_is_decoded_lossily() {
    let cmd = Command::try_from(Value::Array(vec![
        Value::BulkString("GET".into()),
        Value::BulkString(vec![b'a', 0xff, b'b'].into()),
    ]))
    .unwrap();
    assert!(matches!(cmd, Command::Get { key } if key == "a\u{fffd}b"));
}

#[test]
fn command_value_roundtrip() {
    let cmd = Command::SetKey { key: "k".to_string(), value: "h\u{e9}llo".to_string() };
    let value = Value::from(cmd);
    assert_eq!(
        value,
        Value::Array(vec![
            Value::BulkString("SET".into()),
            Value::BulkString("k".into()),
            Value::BulkString("h\u{e9}llo".into()),
        ])
    );
    let back = Command::try_from(value).unwrap();
    assert!(matches!(back, Command::SetKey { key, value } if key == "k" && value == "h\u{e9}llo"));
    let back = Command::try_from(Value::from(Command::Get { key: "x".to_string() })).unwrap();
    assert!(matches!(back, Command::Get { key } if key == "x"));
}

#[test]
fn protocol_error_messages() {
    assert_eq!(ProtocolError::EmptyCommand.to_string(), "empty command");
    assert_eq!(parse(&["GET"]).unwrap_err().to_string(), "\"GET\" requires \"key\"");
    assert_eq!(
        parse(&["SET", "k"]).unwrap_err().to_string(),
        "\"SET\" requires exactly 2, received 1"
    );
    assert_eq!(
        parse(&["CONFIG", "a\"b"]).unwrap_err().to_string(),
        "unknown \"CONFIG\" subcommand \"a\\\"b\""
    );
    assert_eq!(parse(&["nope"]).unwrap_err().to_string(), "unknown command NOPE");
}

#[test]
fn get_with_a_non_bulk_argument() {
    let err = Command::try_from(Value::Array(vec![Value::BulkString("GET".into()), Value::Integer(5)])).unwrap_err();
    assert!(matches!(
        err,
        ProtocolError::InvalidNumberOfArguments { ref command, expected: 1, received: 1 } if command == "GET"
    ));
}
