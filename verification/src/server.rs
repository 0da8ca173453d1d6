//! What the server decides: which configuration it runs with, and what it
//! answers to each request.

use vstd::prelude::*;
use vstd::string::*;
use vstd::utf8::encode_utf8;

use crate::bytes::ByteString;
use crate::command::{spec_parse_command, Command};
use crate::decimal::{ascii_chars, digits_of};
use crate::errors::{spec_error_message, ProtocolError};
use crate::resp::value::{SpecValue, Value};
use crate::text::{push_digits_str, push_str};
use crate::{BBStoreConfig, DEFAULT_ADDRESS, DEFAULT_BUFFER_SIZE, DEFAULT_NUM_SHARDS, DEFAULT_PORT};

verus! {

/// The text `host:port`.
pub open spec fn spec_host_port(host: Seq<char>, port: usize) -> Seq<char> {
    host + seq![':'] + ascii_chars(digits_of(port as nat))
}

/// The address to reach or listen on: the one that the configuration file
/// gives when the command line names neither host nor port; else the host
/// (by default `DEFAULT_ADDRESS`) and port (by default `DEFAULT_PORT`) that
/// the command line names.
pub open spec fn spec_address(file_address: Option<Seq<char>>, host: Option<Seq<char>>, port: Option<usize>) -> Seq<char> {
    if file_address is Some && host is None && port is None {
        file_address->0
    } else {
        spec_host_port(
            match host {
                Some(h) => h,
                None => DEFAULT_ADDRESS@,
            },
            match port {
                Some(p) => p,
                None => DEFAULT_PORT,
            },
        )
    }
}

/// `host:port` as text.
pub fn host_port(host: &str, port: usize) -> (r: String)
    ensures
        r@ == spec_host_port(host@, port),
{
    let mut res = String::new();
    push_str(&mut res, host);
    push_str(&mut res, ":");
    proof {
        reveal_strlit(":");
    }
    push_digits_str(&mut res, port as u64);
    assert(res@ =~= spec_host_port(host@, port));
    res
}

/// The address to reach or listen on, as `spec_address` tells.
pub fn resolve_address(file_address: Option<String>, host: Option<String>, port: Option<usize>) -> (r: String)
    ensures
        r@ == spec_address(
            match file_address {
                Some(a) => Some(a@),
                None => None,
            },
            match host {
                Some(h) => Some(h@),
                None => None,
            },
            port,
        ),
        port matches Some(p) ==> ends_with(r@, seq![':'] + ascii_chars(digits_of(p as nat))),
        host matches Some(h) ==> starts_with(r@, h@ + seq![':']),
        file_address matches Some(a) ==> (host is None && port is None ==> r@ == a@),
{
    proof {
        let fa = match &file_address {
            Some(a) => Some(a@),
            None => None,
        };
        let h = match &host {
            Some(h) => Some(h@),
            None => None,
        };
        if let Some(p) = port {
            lemma_address_keeps_port(fa, h, p);
        }
        if let Some(hh) = h {
            lemma_address_keeps_host(fa, hh, port);
        }
    }
    match (file_address, &host, port) {
        (Some(a), None, None) => a,
        _ => {
            let port = match port {
                Some(p) => p,
                None => DEFAULT_PORT,
            };
            match host {
                Some(h) => host_port(h.as_str(), port),
                None => host_port(DEFAULT_ADDRESS, port),
            }
        },
    }
}

/// The configuration the server runs with, from what the configuration file
/// holds (if it could be read) and what the command line gives: the address
/// as `resolve_address` tells; the number of shards from the command line,
/// else the file, else `DEFAULT_NUM_SHARDS`; the buffer size from the
/// command line, else `DEFAULT_BUFFER_SIZE`.
pub fn server_config(
    file: Option<BBStoreConfig>,
    host: Option<String>,
    port: Option<usize>,
    num_shards: Option<usize>,
    buffer_size: Option<usize>,
) -> (r: BBStoreConfig)
    ensures
        r.address@ == spec_address(
            match file {
                Some(f) => Some(f.address@),
                None => None,
            },
            match host {
                Some(h) => Some(h@),
                None => None,
            },
            port,
        ),
        r.num_shards == match num_shards {
            Some(n) => n,
            None => match file {
                Some(f) => f.num_shards,
                None => DEFAULT_NUM_SHARDS,
            },
        },
        r.buffer_size == match buffer_size {
            Some(b) => b,
            None => DEFAULT_BUFFER_SIZE,
        },
{
    let (file_address, file_shards) = match file {
        Some(f) => (Some(f.address), Some(f.num_shards)),
        None => (None, None),
    };
    let address = resolve_address(file_address, host, port);
    let num_shards = match num_shards {
        Some(n) => n,
        None => match file_shards {
            Some(n) => n,
            None => DEFAULT_NUM_SHARDS,
        },
    };
    let buffer_size = match buffer_size {
        Some(b) => b,
        None => DEFAULT_BUFFER_SIZE,
    };
    BBStoreConfig { address, num_shards, buffer_size }
}

/// The answer to a read: the value, in UTF-8, as a bulk string, or null
/// where the key holds none.
pub open spec fn spec_get_response(found: Option<Seq<char>>) -> SpecValue {
    match found {
        Some(v) => SpecValue::BulkString(encode_utf8(v)),
        None => SpecValue::Null,
    }
}

/// The answer to a read, as `spec_get_response` tells.
pub fn get_response(found: Option<String>) -> (r: Value)
    ensures
        r@ == spec_get_response(
            match found {
                Some(v) => Some(v@),
                None => None,
            },
        ),
{
    match found {
        Some(v) => Value::BulkString(ByteString::from(v)),
        None => Value::Null,
    }
}

/// The bytes of `ok`.
pub open spec fn ok_bytes() -> Seq<u8> {
    seq![111u8, 107u8]
}

/// The answer to a write or a configuration rewrite that succeeded: the
/// simple string `ok`.
pub fn ok_response() -> (r: Value)
    ensures
        r@ == SpecValue::String(ok_bytes()),
{
    let ok = ByteString::from("ok");
    proof {
        reveal_strlit("ok");
        vstd::utf8::is_ascii_chars_encode_utf8("ok"@);
        assert(ok@ =~= ok_bytes());
    }
    Value::String(ok)
}

/// The answer to a request that is not a command: an error whose text tells
/// why.
pub fn error_response(e: &ProtocolError) -> (r: Value)
    ensures
        r@ == SpecValue::Error(encode_utf8(spec_error_message(e@))),
{
    let message = e.to_string();
    Value::Error(ByteString::from(message))
}

/// A request read as a command, or, where it is none, the answer that
/// refuses it.
pub fn read_request(request: Value) -> (r: Result<Command, Value>)
    ensures
        match spec_parse_command(request@) {
            Ok(c) => r matches Ok(cmd) && cmd@ == c,
            Err(e) => r matches Err(answer) && answer@ == SpecValue::Error(encode_utf8(spec_error_message(e))),
        },
{
    let parsed = Command::try_from(request);
    match parsed {
        Ok(c) => Ok(c),
        Err(e) => Err(error_response(&e)),
    }
}

/// Whether `s` ends with `t`.
pub open spec fn ends_with(s: Seq<char>, t: Seq<char>) -> bool {
    t.len() <= s.len() && s.subrange(s.len() - t.len(), s.len() as int) == t
}

/// Whether `s` starts with `t`.
pub open spec fn starts_with(s: Seq<char>, t: Seq<char>) -> bool {
    t.len() <= s.len() && s.subrange(0, t.len() as int) == t
}

/// A port named on the command line is the port of the address: the address
/// ends with `:` and its digits, whether or not a host or a configuration
/// file is given too.
pub proof fn lemma_address_keeps_port(file_address: Option<Seq<char>>, host: Option<Seq<char>>, port: usize)
    ensures
        ends_with(spec_address(file_address, host, Some(port)), seq![':'] + ascii_chars(digits_of(port as nat))),
{
    let h = match host {
        Some(h) => h,
        None => DEFAULT_ADDRESS@,
    };
    let a = spec_address(file_address, host, Some(port));
    let t = seq![':'] + ascii_chars(digits_of(port as nat));
    assert(a =~= h + t);
    assert(a.subrange(a.len() - t.len(), a.len() as int) =~= t);
}

/// A host named on the command line is the host of the address: the address
/// starts with it and `:`, and ends with the port named (by default
/// `DEFAULT_PORT`), whether or not a configuration file is given.
pub proof fn lemma_address_keeps_host(file_address: Option<Seq<char>>, host: Seq<char>, port: Option<usize>)
    ensures
        starts_with(spec_address(file_address, Some(host), port), host + seq![':']),
        ends_with(
            spec_address(file_address, Some(host), port),
            seq![':'] + ascii_chars(digits_of(
                match port {
                    Some(p) => p,
                    None => DEFAULT_PORT,
                } as nat,
            )),
        ),
{
    let p = match port {
        Some(p) => p,
        None => DEFAULT_PORT,
    };
    let a = spec_address(file_address, Some(host), port);
    let t = seq![':'] + ascii_chars(digits_of(p as nat));
    assert(a =~= host + t);
    assert(a.subrange(0, host.len() + 1int) =~= host + seq![':']);
    assert(a.subrange(a.len() - t.len(), a.len() as int) =~= t);
}

/// With neither host nor port on the command line, the address is the one
/// in the configuration file; without the file either, it is
/// `DEFAULT_ADDRESS:DEFAULT_PORT`.
pub proof fn lemma_address_without_arguments(file_address: Option<Seq<char>>)
    ensures
        file_address matches Some(a) ==> spec_address(file_address, None, None) == a,
        file_address is None ==> spec_address(file_address, None, None) == DEFAULT_ADDRESS@ + seq![':']
            + ascii_chars(digits_of(DEFAULT_PORT as nat)),
{
}

} // verus!
