//! What a client and the server promise each other across the wire: a
//! client that sets a key and then gets it reads back what it set.

use vstd::prelude::*;
use vstd::utf8::encode_utf8;

use crate::backend::{sharded_get, sharded_insert};
use crate::client::{spec_get_reply, spec_set_reply, SpecClientError};
use crate::command::{lemma_command_roundtrip, lemma_lossy_encode, spec_command_value, spec_parse_command, SpecCommand};
use crate::errors::{spec_error_message, SpecProtocolError};
use crate::resp::decode::{parse_value, Parsed};
use crate::resp::laws::{all_wire_ok, as_received, lemma_as_received_bulk, lemma_decode_encode, wire_ok};
use crate::resp::value::{spec_encode, SpecValue};
use crate::resp::RESP_MAX_SIZE;
use crate::server::{ok_bytes, spec_get_response};

verus! {

/// A request whose every argument is a bulk string that fits the protocol
/// can be written and read back.
proof fn lemma_bulk_array_wire_ok(vs: Seq<SpecValue>)
    requires
        vs.len() <= 3,
        forall|i: int| 0 <= i < vs.len() ==> (#[trigger] vs[i] is BulkString) && vs[i]->BulkString_0.len() < RESP_MAX_SIZE,
    ensures
        wire_ok(SpecValue::Array(vs)),
{
    lemma_all_bulk_wire_ok(vs);
}

proof fn lemma_all_bulk_wire_ok(vs: Seq<SpecValue>)
    requires
        forall|i: int| 0 <= i < vs.len() ==> (#[trigger] vs[i] is BulkString) && vs[i]->BulkString_0.len() < RESP_MAX_SIZE,
    ensures
        all_wire_ok(vs),
    decreases vs.len(),
{
    if vs.len() > 0 {
        let rest = vs.subrange(1, vs.len() as int);
        assert forall|i: int| 0 <= i < rest.len() implies (#[trigger] rest[i] is BulkString)
            && rest[i]->BulkString_0.len() < RESP_MAX_SIZE by {
            assert(rest[i] == vs[i + 1]);
        }
        lemma_all_bulk_wire_ok(rest);
        assert(vs[0] is BulkString);
        assert(wire_ok(vs[0]));
    }
}

/// The server reads the bytes of a command that a client wrote, whatever
/// follows them, as that command.
pub proof fn lemma_server_reads_command(c: SpecCommand, rest: Seq<u8>)
    requires
        crate::command::command_ok(c),
        forall|i: int| 0 <= i < spec_command_value(c)->Array_0.len()
            ==> #[trigger] spec_command_value(c)->Array_0[i]->BulkString_0.len() < RESP_MAX_SIZE,
    ensures
        parse_value(spec_encode(spec_command_value(c)) + rest, true) == Parsed::Done(
            spec_command_value(c),
            spec_encode(spec_command_value(c)).len(),
        ),
        spec_parse_command(spec_command_value(c)) == Ok::<SpecCommand, SpecProtocolError>(c),
{
    let v = spec_command_value(c);
    lemma_bulk_array_wire_ok(v->Array_0);
    lemma_decode_encode(v, rest, true);
    lemma_as_received_bulk(v);
    lemma_command_roundtrip(c);
}

/// A client that sets `key` to `value` and then gets `key` reads back
/// `value`: the server reads both requests as the commands sent, the write
/// goes to the shard that owns the key, and the answer to the read, decoded
/// by the client, is the value.
pub proof fn lemma_get_after_set(
    shards: Seq<Map<Seq<char>, String>>,
    key: Seq<char>,
    value: String,
    rest: Seq<u8>,
)
    requires
        shards.len() > 0,
        key.len() > 0,
        value@.len() > 0,
        encode_utf8(key).len() < RESP_MAX_SIZE,
        encode_utf8(value@).len() < RESP_MAX_SIZE,
    ensures
        ({
            let set = SpecCommand::SetKey { key, value: value@ };
            let get = SpecCommand::Get { key };
            let set_bytes = spec_encode(spec_command_value(set));
            let get_bytes = spec_encode(spec_command_value(get));
            let answer = spec_get_response(
                match sharded_get(sharded_insert(shards, key, value), key) {
                    Some(s) => Some(s@),
                    None => None,
                },
            );
            &&& parse_value(set_bytes + rest, true) == Parsed::Done(spec_command_value(set), set_bytes.len())
            &&& spec_parse_command(spec_command_value(set)) == Ok::<SpecCommand, SpecProtocolError>(set)
            &&& parse_value(get_bytes + rest, true) == Parsed::Done(spec_command_value(get), get_bytes.len())
            &&& spec_parse_command(spec_command_value(get)) == Ok::<SpecCommand, SpecProtocolError>(get)
            &&& parse_value(spec_encode(answer) + rest, false) matches Parsed::Done(reply, _)
                && spec_get_reply(reply) == Ok::<Option<Seq<char>>, crate::client::SpecClientError>(Some(value@))
        }),
{
    let set = SpecCommand::SetKey { key, value: value@ };
    let get = SpecCommand::Get { key };
    crate::command::lemma_verb_lengths();
    lemma_server_reads_command(set, rest);
    lemma_server_reads_command(get, rest);
    crate::backend::lemma_read_after_write(shards, key, value);
    let answer = SpecValue::BulkString(encode_utf8(value@));
    lemma_decode_encode(answer, rest, false);
    lemma_lossy_encode(value@);
}

/// The client reads the server's answers as they were meant: the answer to
/// a read gives back the value found (or none), the answer to a write is
/// success, and the answer that refuses a request is an error that carries
/// its message, over the wire or not.
pub proof fn lemma_client_reads_server_answers(found: Option<Seq<char>>, e: SpecProtocolError)
    ensures
        spec_get_reply(spec_get_response(found)) == Ok::<Option<Seq<char>>, SpecClientError>(found),
        spec_get_reply(as_received(spec_get_response(found), false)) == Ok::<Option<Seq<char>>, SpecClientError>(
            found,
        ),
        spec_set_reply(SpecValue::String(ok_bytes())) == Ok::<(), SpecClientError>(()),
        spec_set_reply(SpecValue::Error(encode_utf8(spec_error_message(e)))) == Err::<(), SpecClientError>(
            SpecClientError::Server(spec_error_message(e)),
        ),
        spec_get_reply(SpecValue::Error(encode_utf8(spec_error_message(e)))) == Err::<
            Option<Seq<char>>,
            SpecClientError,
        >(SpecClientError::Server(spec_error_message(e))),
{
    if let Some(v) = found {
        lemma_lossy_encode(v);
    }
    lemma_lossy_encode(spec_error_message(e));
}

} // verus!
