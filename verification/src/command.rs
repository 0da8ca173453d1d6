//! The commands a client sends, read from and written as RESP values.

use vstd::prelude::*;
use vstd::string::*;
use vstd::utf8::encode_utf8;

use crate::bytes::ByteString;
use crate::errors::{ProtocolError, SpecProtocolError};
use crate::resp::value::{lemma_values_view, values_view, SpecValue, Value};
use crate::text::{lossy_decode, push_str, str_to_uppercase, uppercase};

verus! {

/// The subcommands of `CONFIG`.
#[derive(Debug)]
pub enum ConfigCommand {
    Rewrite,
}

/// The arguments of `CONFIG`.
#[derive(Debug)]
pub struct ConfigArgs {
    pub command: ConfigCommand,
}

/// A command of the store.
#[derive(Debug)]
pub enum Command {
    Get { key: String },
    SetKey { key: String, value: String },
    Config(ConfigArgs),
}

/// The model of a [`Command`].
pub enum SpecCommand {
    Get { key: Seq<char> },
    SetKey { key: Seq<char>, value: Seq<char> },
    ConfigRewrite,
}

impl View for Command {
    type V = SpecCommand;

    open spec fn view(&self) -> SpecCommand {
        match self {
            Command::Get { key } => SpecCommand::Get { key: key@ },
            Command::SetKey { key, value } => SpecCommand::SetKey { key: key@, value: value@ },
            Command::Config(_) => SpecCommand::ConfigRewrite,
        }
    }
}

pub open spec fn get_chars() -> Seq<char> {
    seq!['G', 'E', 'T']
}

pub open spec fn set_chars() -> Seq<char> {
    seq!['S', 'E', 'T']
}

pub open spec fn config_chars() -> Seq<char> {
    seq!['C', 'O', 'N', 'F', 'I', 'G']
}

pub open spec fn rewrite_chars() -> Seq<char> {
    seq!['R', 'E', 'W', 'R', 'I', 'T', 'E']
}

/// The ASCII lower case of a byte.
pub open spec fn ascii_lower_byte(b: u8) -> u8 {
    if 65 <= b <= 90 {
        (b + 32) as u8
    } else {
        b
    }
}

/// Whether `a` and `b` are equal but for the case of ASCII letters.
pub open spec fn eq_ignore_ascii_case(a: Seq<u8>, b: Seq<u8>) -> bool {
    a.len() == b.len() && forall|i: int| 0 <= i < a.len() ==> ascii_lower_byte(#[trigger] a[i]) == ascii_lower_byte(b[i])
}

/// The bytes of `REWRITE`.
pub open spec fn rewrite_bytes() -> Seq<u8> {
    seq![82u8, 69u8, 87u8, 82u8, 73u8, 84u8, 69u8]
}

/// The result of reading `GET` with the arguments `args`.
pub open spec fn spec_get_command(args: Seq<SpecValue>) -> Result<SpecCommand, SpecProtocolError> {
    if args.len() == 1 && args[0] is BulkString && args[0]->BulkString_0.len() > 0 {
        Ok(SpecCommand::Get { key: lossy_decode(args[0]->BulkString_0) })
    } else if args.len() == 0 || (args.len() == 1 && args[0] is BulkString) {
        Err(SpecProtocolError::RequiredArguments { command: get_chars(), arguments: seq!['k', 'e', 'y'] })
    } else {
        Err(SpecProtocolError::InvalidNumberOfArguments {
            command: get_chars(),
            expected: 1,
            received: args.len() as usize,
        })
    }
}

/// The result of reading `SET` with the arguments `args`.
pub open spec fn spec_set_command(args: Seq<SpecValue>) -> Result<SpecCommand, SpecProtocolError> {
    if args.len() == 2 {
        if args[0] is BulkString && args[1] is BulkString && args[0]->BulkString_0.len() > 0
            && args[1]->BulkString_0.len() > 0 {
            Ok(SpecCommand::SetKey {
                key: lossy_decode(args[0]->BulkString_0),
                value: lossy_decode(args[1]->BulkString_0),
            })
        } else {
            Err(SpecProtocolError::RequiredArguments {
                command: set_chars(),
                arguments: seq!['k', 'e', 'y', ' ', 'a', 'n', 'd', ' ', 'v', 'a', 'l', 'u', 'e'],
            })
        }
    } else {
        Err(SpecProtocolError::InvalidNumberOfArguments {
            command: set_chars(),
            expected: 2,
            received: args.len() as usize,
        })
    }
}

/// The result of reading `CONFIG` with the arguments `args`.
pub open spec fn spec_config_command(args: Seq<SpecValue>) -> Result<SpecCommand, SpecProtocolError> {
    if args.len() == 1 && args[0] is BulkString {
        if eq_ignore_ascii_case(args[0]->BulkString_0, rewrite_bytes()) {
            Ok(SpecCommand::ConfigRewrite)
        } else {
            Err(SpecProtocolError::UnknownSubcommand {
                command: config_chars(),
                subcommand: lossy_decode(args[0]->BulkString_0),
            })
        }
    } else if args.len() == 0 {
        Err(SpecProtocolError::RequiredArguments {
            command: config_chars(),
            arguments: seq!['s', 'u', 'b', 'c', 'o', 'm', 'm', 'a', 'n', 'd'],
        })
    } else {
        Err(SpecProtocolError::InvalidNumberOfArguments {
            command: config_chars(),
            expected: 1,
            received: args.len() as usize,
        })
    }
}

/// The result of reading a command whose verb, upper-cased, is `verb` and
/// whose arguments are `args`.
pub open spec fn spec_command_for_verb(verb: Seq<char>, args: Seq<SpecValue>) -> Result<SpecCommand, SpecProtocolError> {
    if verb == get_chars() {
        spec_get_command(args)
    } else if verb == set_chars() {
        spec_set_command(args)
    } else if verb == config_chars() {
        spec_config_command(args)
    } else {
        Err(SpecProtocolError::UnknownCommand(verb))
    }
}

/// The result of reading a command from the RESP value `v`: an array whose
/// first element, a bulk string, names the command (in any case) and whose
/// other elements are its arguments.
pub open spec fn spec_parse_command(v: SpecValue) -> Result<SpecCommand, SpecProtocolError> {
    match v {
        SpecValue::Array(args) => {
            if args.len() == 0 {
                Err(SpecProtocolError::EmptyCommand)
            } else {
                match args[0] {
                    SpecValue::BulkString(b) => spec_command_for_verb(
                        uppercase(lossy_decode(b)),
                        args.subrange(1, args.len() as int),
                    ),
                    _ => Err(SpecProtocolError::EmptyCommand),
                }
            }
        },
        _ => Err(SpecProtocolError::EmptyCommand),
    }
}

/// The model of a command result.
pub open spec fn result_view(r: Result<Command, ProtocolError>) -> Result<SpecCommand, SpecProtocolError> {
    match r {
        Ok(c) => Ok(c@),
        Err(e) => Err(e@),
    }
}

/// Whether the text `s` is the text `lit`.
fn str_is(s: &str, lit: &str) -> (r: bool)
    ensures
        r == (s@ == lit@),
{
    let n = lit.unicode_len();
    if s.unicode_len() != n {
        return false;
    }
    let mut i: usize = 0;
    while i < n
        invariant
            i <= n,
            n == lit@.len(),
            n == s@.len(),
            forall|j: int| 0 <= j < i ==> s@[j] == lit@[j],
        decreases n - i,
    {
        if s.get_char(i) != lit.get_char(i) {
            return false;
        }
        i = i + 1;
    }
    assert(s@ =~= lit@);
    true
}

/// Whether `a` and `b` are equal but for the case of ASCII letters.
pub fn bytes_eq_ignore_ascii_case(a: &[u8], b: &[u8]) -> (r: bool)
    ensures
        r == eq_ignore_ascii_case(a@, b@),
{
    if a.len() != b.len() {
        return false;
    }
    let mut i: usize = 0;
    while i < a.len()
        invariant
            i <= a.len(),
            a@.len() == b@.len(),
            forall|j: int| 0 <= j < i ==> ascii_lower_byte(#[trigger] a@[j]) == ascii_lower_byte(b@[j]),
        decreases a.len() - i,
    {
        let x = a[i];
        let y = b[i];
        let lx: u8 = if 65 <= x && x <= 90 { x + 32 } else { x };
        let ly: u8 = if 65 <= y && y <= 90 { y + 32 } else { y };
        if lx != ly {
            return false;
        }
        i = i + 1;
    }
    true
}

/// A `String` holding the text of the literal `lit`.
fn owned(lit: &str) -> (r: String)
    ensures
        r@ == lit@,
{
    String::from_str(lit)
}

impl Command {
    fn from_get_args(args: &[Value]) -> (r: Result<Command, ProtocolError>)
        ensures
            result_view(r) == spec_get_command(values_view(args@)),
    {
        proof {
            lemma_values_view(args@);
            reveal_strlit("GET");
            reveal_strlit("key");
            assert("GET"@ =~= get_chars());
            assert("key"@ =~= seq!['k', 'e', 'y']);
        }
        if args.len() == 1 {
            if let Value::BulkString(key) = &args[0] {
                if !key.is_empty() {
                    return Ok(Command::Get { key: key.to_string() });
                } else {
                    return Err(ProtocolError::RequiredArguments { command: owned("GET"), arguments: owned("key") });
                }
            }
        }
        if args.len() == 0 {
            Err(ProtocolError::RequiredArguments { command: owned("GET"), arguments: owned("key") })
        } else {
            Err(ProtocolError::InvalidNumberOfArguments { command: owned("GET"), expected: 1, received: args.len() })
        }
    }

    fn from_set_args(args: &[Value]) -> (r: Result<Command, ProtocolError>)
        ensures
            result_view(r) == spec_set_command(values_view(args@)),
    {
        proof {
            lemma_values_view(args@);
            reveal_strlit("SET");
            reveal_strlit("key and value");
            assert("SET"@ =~= set_chars());
            assert("key and value"@ =~= seq!['k', 'e', 'y', ' ', 'a', 'n', 'd', ' ', 'v', 'a', 'l', 'u', 'e']);
        }
        if args.len() == 2 {
            if let Value::BulkString(key) = &args[0] {
                if let Value::BulkString(val) = &args[1] {
                    if !key.is_empty() && !val.is_empty() {
                        return Ok(Command::SetKey { key: key.to_string(), value: val.to_string() });
                    }
                }
            }
            Err(ProtocolError::RequiredArguments { command: owned("SET"), arguments: owned("key and value") })
        } else {
            Err(ProtocolError::InvalidNumberOfArguments { command: owned("SET"), expected: 2, received: args.len() })
        }
    }

    fn from_config_args(args: &[Value]) -> (r: Result<Command, ProtocolError>)
        ensures
            result_view(r) == spec_config_command(values_view(args@)),
    {
        proof {
            lemma_values_view(args@);
            reveal_strlit("CONFIG");
            reveal_strlit("subcommand");
            assert("CONFIG"@ =~= config_chars());
            assert("subcommand"@ =~= seq!['s', 'u', 'b', 'c', 'o', 'm', 'm', 'a', 'n', 'd']);
        }
        if args.len() == 1 {
            if let Value::BulkString(sub) = &args[0] {
                let rewrite = "REWRITE".as_bytes();
                proof {
                    reveal_strlit("REWRITE");
                    vstd::utf8::is_ascii_chars_encode_utf8("REWRITE"@);
                    assert(rewrite@ =~= rewrite_bytes());
                }
                if bytes_eq_ignore_ascii_case(sub.as_bytes(), rewrite) {
                    return Ok(Command::Config(ConfigArgs { command: ConfigCommand::Rewrite }));
                } else {
                    return Err(ProtocolError::UnknownSubcommand { command: owned("CONFIG"), subcommand: sub.to_string() });
                }
            }
        }
        if args.len() == 0 {
            Err(ProtocolError::RequiredArguments { command: owned("CONFIG"), arguments: owned("subcommand") })
        } else {
            Err(ProtocolError::InvalidNumberOfArguments { command: owned("CONFIG"), expected: 1, received: args.len() })
        }
    }

    /// Reads the command whose verb, already upper-cased, is `verb` and whose
    /// arguments are `args`.
    pub fn from_verb(verb: &str, args: &[Value]) -> (r: Result<Command, ProtocolError>)
        ensures
            result_view(r) == spec_command_for_verb(verb@, values_view(args@)),
    {
        proof {
            reveal_strlit("GET");
            reveal_strlit("SET");
            reveal_strlit("CONFIG");
            assert("GET"@ =~= get_chars());
            assert("SET"@ =~= set_chars());
            assert("CONFIG"@ =~= config_chars());
        }
        if str_is(verb, "GET") {
            Self::from_get_args(args)
        } else if str_is(verb, "SET") {
            Self::from_set_args(args)
        } else if str_is(verb, "CONFIG") {
            Self::from_config_args(args)
        } else {
            Err(ProtocolError::UnknownCommand(owned(verb)))
        }
    }

    /// Reads a command from a RESP value: an array whose first element, a
    /// bulk string, names the command in any case, followed by its arguments.
    pub fn try_from(value: Value) -> (r: Result<Command, ProtocolError>)
        ensures
            result_view(r) == spec_parse_command(value@),
    {
        match value {
            Value::Array(mut args) => {
                proof {
                    lemma_values_view(args@);
                }
                if args.len() == 0 {
                    return Err(ProtocolError::EmptyCommand);
                }
                let ghost before = args@;
                let first = args.remove(0);
                proof {
                    lemma_values_view(args@);
                    assert(args@ =~= before.subrange(1, before.len() as int));
                    assert(values_view(args@) =~= values_view(before).subrange(1, before.len() as int));
                }
                match first {
                    Value::BulkString(verb) => {
                        let text = verb.to_string();
                        let upper = str_to_uppercase(text.as_str());
                        Self::from_verb(upper.as_str(), args.as_slice())
                    },
                    _ => Err(ProtocolError::EmptyCommand),
                }
            },
            _ => Err(ProtocolError::EmptyCommand),
        }
    }
}

/// The text that shows a command as a client would type it.
pub open spec fn spec_command_text(c: SpecCommand) -> Seq<char> {
    match c {
        SpecCommand::Get { key } => get_chars() + seq![' '] + key,
        SpecCommand::SetKey { key, value } => set_chars() + seq![' '] + key + seq![' '] + value,
        SpecCommand::ConfigRewrite => config_chars() + seq![' '] + rewrite_chars(),
    }
}

impl ConfigCommand {
    /// The name of this subcommand.
    pub fn to_string(&self) -> (r: String)
        ensures
            r@ == rewrite_chars(),
    {
        proof {
            reveal_strlit("REWRITE");
            assert("REWRITE"@ =~= rewrite_chars());
        }
        match self {
            ConfigCommand::Rewrite => owned("REWRITE"),
        }
    }
}

impl Command {
    /// The text that shows this command as a client would type it.
    pub fn to_string(&self) -> (r: String)
        ensures
            r@ == spec_command_text(self@),
    {
        proof {
            reveal_strlit("GET ");
            reveal_strlit("SET ");
            reveal_strlit("CONFIG ");
            reveal_strlit(" ");
        }
        let mut res = String::new();
        match self {
            Command::Get { key } => {
                push_str(&mut res, "GET ");
                push_str(&mut res, key.as_str());
            },
            Command::SetKey { key, value } => {
                push_str(&mut res, "SET ");
                push_str(&mut res, key.as_str());
                push_str(&mut res, " ");
                push_str(&mut res, value.as_str());
            },
            Command::Config(args) => {
                push_str(&mut res, "CONFIG ");
                let sub = args.command.to_string();
                push_str(&mut res, sub.as_str());
            },
        }
        assert(res@ =~= spec_command_text(self@));
        res
    }
}

/// The RESP value that carries a command to the server: an array of bulk
/// strings, the verb first, then the arguments in UTF-8.
pub open spec fn spec_command_value(c: SpecCommand) -> SpecValue {
    match c {
        SpecCommand::Get { key } => SpecValue::Array(
            seq![SpecValue::BulkString(encode_utf8(get_chars())), SpecValue::BulkString(encode_utf8(key))],
        ),
        SpecCommand::SetKey { key, value } => SpecValue::Array(
            seq![
                SpecValue::BulkString(encode_utf8(set_chars())),
                SpecValue::BulkString(encode_utf8(key)),
                SpecValue::BulkString(encode_utf8(value)),
            ],
        ),
        SpecCommand::ConfigRewrite => SpecValue::Array(
            seq![
                SpecValue::BulkString(encode_utf8(config_chars())),
                SpecValue::BulkString(encode_utf8(rewrite_chars())),
            ],
        ),
    }
}

fn bulk_of(s: &str) -> (r: Value)
    ensures
        r@ == SpecValue::BulkString(encode_utf8(s@)),
{
    Value::BulkString(ByteString::from(s))
}

impl From<Command> for Value {
    fn from(cmd: Command) -> (r: Value)
        ensures
            r@ == spec_command_value(cmd@),
    {
        proof {
            reveal_strlit("GET");
            reveal_strlit("SET");
            reveal_strlit("CONFIG");
            reveal_strlit("REWRITE");
            assert("GET"@ =~= get_chars());
            assert("SET"@ =~= set_chars());
            assert("CONFIG"@ =~= config_chars());
            assert("REWRITE"@ =~= rewrite_chars());
        }
        let mut items: Vec<Value> = Vec::new();
        match cmd {
            Command::Get { key } => {
                items.push(bulk_of("GET"));
                items.push(bulk_of(key.as_str()));
            },
            Command::SetKey { key, value } => {
                items.push(bulk_of("SET"));
                items.push(bulk_of(key.as_str()));
                items.push(bulk_of(value.as_str()));
            },
            Command::Config(_) => {
                items.push(bulk_of("CONFIG"));
                items.push(bulk_of("REWRITE"));
            },
        }
        proof {
            lemma_values_view(items@);
            assert(values_view(items@) =~= spec_command_value(cmd@)->Array_0);
        }
        Value::Array(items)
    }
}

impl vstd::std_specs::convert::FromSpecImpl<Command> for Value {
    open spec fn obeys_from_spec() -> bool {
        false
    }

    open spec fn from_spec(v: Command) -> Value {
        vstd::pervasive::arbitrary()
    }
}

/// Whether a command can make the trip to the server: its key and value are
/// not empty.
pub open spec fn command_ok(c: SpecCommand) -> bool {
    match c {
        SpecCommand::Get { key } => key.len() > 0,
        SpecCommand::SetKey { key, value } => key.len() > 0 && value.len() > 0,
        SpecCommand::ConfigRewrite => true,
    }
}

/// Lossy decoding gives back the text whose UTF-8 encoding it is given.
pub proof fn lemma_lossy_encode(s: Seq<char>)
    ensures
        lossy_decode(encode_utf8(s)) == s,
        encode_utf8(s).len() == 0 <==> s.len() == 0,
{
    vstd::utf8::encode_utf8_valid_utf8(s);
    vstd::utf8::encode_utf8_decode_utf8(s);
    if s.len() == 0 {
        assert(encode_utf8(s) =~= Seq::<u8>::empty());
    }
    if encode_utf8(s).len() == 0 {
        assert(encode_utf8(s) =~= Seq::<u8>::empty());
        assert(vstd::utf8::decode_utf8(Seq::<u8>::empty()) =~= Seq::<char>::empty());
    }
}

/// The verb of a command, written by the client and read by the server,
/// names the command again.
proof fn lemma_verb_roundtrip(verb: Seq<char>)
    requires
        vstd::utf8::is_ascii_chars(verb),
        forall|i: int| 0 <= i < verb.len() ==> 'A' <= #[trigger] verb[i] <= 'Z',
    ensures
        uppercase(lossy_decode(encode_utf8(verb))) == verb,
{
    lemma_lossy_encode(verb);
    assert(verb.map_values(|c: char| crate::text::ascii_upper(c)) =~= verb);
}

/// A command that the client sends is the command that the server reads:
/// reading back the RESP value of a command with non-empty key and value
/// gives that command.
pub proof fn lemma_command_roundtrip(c: SpecCommand)
    requires
        command_ok(c),
    ensures
        spec_parse_command(spec_command_value(c)) == Ok::<SpecCommand, SpecProtocolError>(c),
{
    let v = spec_command_value(c);
    let args = v->Array_0;
    match c {
        SpecCommand::Get { key } => {
            lemma_verb_roundtrip(get_chars());
            lemma_lossy_encode(key);
            assert(args.subrange(1, args.len() as int) =~= seq![SpecValue::BulkString(encode_utf8(key))]);
        },
        SpecCommand::SetKey { key, value } => {
            lemma_verb_roundtrip(set_chars());
            lemma_lossy_encode(key);
            lemma_lossy_encode(value);
            assert(args.subrange(1, args.len() as int) =~= seq![
                SpecValue::BulkString(encode_utf8(key)),
                SpecValue::BulkString(encode_utf8(value)),
            ]);
        },
        SpecCommand::ConfigRewrite => {
            lemma_verb_roundtrip(config_chars());
            vstd::utf8::is_ascii_chars_encode_utf8(rewrite_chars());
            assert(encode_utf8(rewrite_chars()) =~= rewrite_bytes());
            assert(args.subrange(1, args.len() as int) =~= seq![SpecValue::BulkString(encode_utf8(rewrite_chars()))]);
        },
    }
}

/// The verbs are short.
pub proof fn lemma_verb_lengths()
    ensures
        encode_utf8(get_chars()).len() == 3,
        encode_utf8(set_chars()).len() == 3,
        encode_utf8(config_chars()).len() == 6,
        encode_utf8(rewrite_chars()).len() == 7,
{
    vstd::utf8::is_ascii_chars_encode_utf8(get_chars());
    vstd::utf8::is_ascii_chars_encode_utf8(set_chars());
    vstd::utf8::is_ascii_chars_encode_utf8(config_chars());
    vstd::utf8::is_ascii_chars_encode_utf8(rewrite_chars());
}

/// Whether the bytes `b`, decoded and upper-cased, are the verb `verb`.
pub open spec fn names_verb(b: Seq<u8>, verb: Seq<char>) -> bool {
    uppercase(lossy_decode(b)) == verb
}

/// A request: an array whose first element is the bulk string `b`, followed
/// by the arguments `args`.
pub open spec fn request(b: Seq<u8>, args: Seq<SpecValue>) -> SpecValue {
    SpecValue::Array(seq![SpecValue::BulkString(b)] + args)
}

/// Whether `v` is a bulk string that is not empty.
pub open spec fn non_empty_bulk(v: SpecValue) -> bool {
    v is BulkString && v->BulkString_0.len() > 0
}

/// The arguments of a request are the elements after its verb.
proof fn lemma_request_args(b: Seq<u8>, args: Seq<SpecValue>)
    ensures
        request(b, args)->Array_0.len() == args.len() + 1,
        request(b, args)->Array_0[0] == SpecValue::BulkString(b),
        request(b, args)->Array_0.subrange(1, args.len() + 1int) == args,
{
    let all = seq![SpecValue::BulkString(b)] + args;
    assert(all.subrange(1, args.len() + 1int) =~= args);
}

/// An ASCII verb in any case names its upper case.
pub proof fn lemma_ascii_verb(w: Seq<char>)
    requires
        vstd::utf8::is_ascii_chars(w),
    ensures
        names_verb(encode_utf8(w), w.map_values(|c: char| crate::text::ascii_upper(c))),
{
    lemma_lossy_encode(w);
}

/// `SET` takes exactly two arguments, both non-empty bulk strings: with any
/// other number of arguments it is refused as the wrong number, received
/// being that number; with two arguments of which one is not a non-empty
/// bulk string, as lacking its key and value; and what it reads is the key
/// and the value decoded from those two arguments.
pub proof fn lemma_set_requests(b: Seq<u8>, args: Seq<SpecValue>)
    requires
        names_verb(b, set_chars()),
    ensures
        ({
            let r = spec_parse_command(request(b, args));
            &&& args.len() != 2 ==> r == Err::<SpecCommand, SpecProtocolError>(
                SpecProtocolError::InvalidNumberOfArguments {
                    command: set_chars(),
                    expected: 2,
                    received: args.len() as usize,
                },
            )
            &&& (args.len() == 2 && !(non_empty_bulk(args[0]) && non_empty_bulk(args[1]))) ==> r == Err::<
                SpecCommand,
                SpecProtocolError,
            >(
                SpecProtocolError::RequiredArguments {
                    command: set_chars(),
                    arguments: seq!['k', 'e', 'y', ' ', 'a', 'n', 'd', ' ', 'v', 'a', 'l', 'u', 'e'],
                },
            )
            &&& (args.len() == 2 && non_empty_bulk(args[0]) && non_empty_bulk(args[1])) ==> r == Ok::<
                SpecCommand,
                SpecProtocolError,
            >(
                SpecCommand::SetKey {
                    key: lossy_decode(args[0]->BulkString_0),
                    value: lossy_decode(args[1]->BulkString_0),
                },
            )
            &&& r is Ok ==> args.len() == 2 && non_empty_bulk(args[0]) && non_empty_bulk(args[1])
        }),
{
    lemma_request_args(b, args);
    assert(set_chars() != get_chars());
}

/// `GET` takes exactly one argument, a non-empty bulk string, and reads the
/// key decoded from it: no argument, or an empty bulk string, is refused as
/// lacking the key; any other argument list, as the wrong number, received
/// being the number of arguments.
pub proof fn lemma_get_requests(b: Seq<u8>, args: Seq<SpecValue>)
    requires
        names_verb(b, get_chars()),
    ensures
        ({
            let r = spec_parse_command(request(b, args));
            &&& (args.len() == 1 && non_empty_bulk(args[0])) ==> r == Ok::<SpecCommand, SpecProtocolError>(
                SpecCommand::Get { key: lossy_decode(args[0]->BulkString_0) },
            )
            &&& (args.len() == 0 || (args.len() == 1 && args[0] is BulkString && args[0]->BulkString_0.len() == 0))
                ==> r == Err::<SpecCommand, SpecProtocolError>(
                SpecProtocolError::RequiredArguments { command: get_chars(), arguments: seq!['k', 'e', 'y'] },
            )
            &&& (args.len() >= 2 || (args.len() == 1 && !(args[0] is BulkString))) ==> r == Err::<
                SpecCommand,
                SpecProtocolError,
            >(
                SpecProtocolError::InvalidNumberOfArguments {
                    command: get_chars(),
                    expected: 1,
                    received: args.len() as usize,
                },
            )
            &&& r is Ok ==> args.len() == 1 && non_empty_bulk(args[0])
        }),
{
    lemma_request_args(b, args);
}

/// `CONFIG` takes exactly one argument, a bulk string that is `REWRITE` in
/// any case: another bulk string is refused as an unknown subcommand, named
/// as decoded; no argument, as lacking the subcommand; any other argument
/// list, as the wrong number.
pub proof fn lemma_config_requests(b: Seq<u8>, args: Seq<SpecValue>)
    requires
        names_verb(b, config_chars()),
    ensures
        ({
            let r = spec_parse_command(request(b, args));
            &&& (args.len() == 1 && args[0] is BulkString && eq_ignore_ascii_case(args[0]->BulkString_0, rewrite_bytes()))
                ==> r == Ok::<SpecCommand, SpecProtocolError>(SpecCommand::ConfigRewrite)
            &&& (args.len() == 1 && args[0] is BulkString && !eq_ignore_ascii_case(args[0]->BulkString_0, rewrite_bytes()))
                ==> r == Err::<SpecCommand, SpecProtocolError>(
                SpecProtocolError::UnknownSubcommand {
                    command: config_chars(),
                    subcommand: lossy_decode(args[0]->BulkString_0),
                },
            )
            &&& args.len() == 0 ==> r == Err::<SpecCommand, SpecProtocolError>(
                SpecProtocolError::RequiredArguments {
                    command: config_chars(),
                    arguments: seq!['s', 'u', 'b', 'c', 'o', 'm', 'm', 'a', 'n', 'd'],
                },
            )
            &&& (args.len() >= 2 || (args.len() == 1 && !(args[0] is BulkString))) ==> r == Err::<
                SpecCommand,
                SpecProtocolError,
            >(
                SpecProtocolError::InvalidNumberOfArguments {
                    command: config_chars(),
                    expected: 1,
                    received: args.len() as usize,
                },
            )
            &&& r is Ok ==> args.len() == 1 && args[0] is BulkString
        }),
{
    lemma_request_args(b, args);
    assert(config_chars() != get_chars());
    assert(config_chars() != set_chars());
}

/// A request that is not an array, is empty, or does not start with a bulk
/// string is an empty command; one whose verb is none of `GET`, `SET`,
/// `CONFIG` is an unknown command, named by its upper-cased verb.
pub proof fn lemma_other_requests(v: SpecValue, b: Seq<u8>, args: Seq<SpecValue>)
    ensures
        !(v is Array) ==> spec_parse_command(v) == Err::<SpecCommand, SpecProtocolError>(SpecProtocolError::EmptyCommand),
        (v is Array && (v->Array_0.len() == 0 || !(v->Array_0[0] is BulkString))) ==> spec_parse_command(v)
            == Err::<SpecCommand, SpecProtocolError>(SpecProtocolError::EmptyCommand),
        ({
            let verb = uppercase(lossy_decode(b));
            (verb != get_chars() && verb != set_chars() && verb != config_chars()) ==> spec_parse_command(
                request(b, args),
            ) == Err::<SpecCommand, SpecProtocolError>(SpecProtocolError::UnknownCommand(verb))
        }),
{
    lemma_request_args(b, args);
}

} // verus!
