//! What the client makes of the server's answers.

use vstd::prelude::*;

use crate::resp::value::{SpecValue, Value};
use crate::text::lossy_decode;

verus! {

/// Why a request of the client failed.
#[derive(Debug)]
pub enum ClientError {
    /// The server answered with an error; its text.
    Server(String),
    /// The server answered with a value that the request does not expect.
    UnexpectedResponse(Value),
}

/// The model of a [`ClientError`].
pub enum SpecClientError {
    Server(Seq<char>),
    UnexpectedResponse(SpecValue),
}

impl View for ClientError {
    type V = SpecClientError;

    open spec fn view(&self) -> SpecClientError {
        match self {
            ClientError::Server(t) => SpecClientError::Server(t@),
            ClientError::UnexpectedResponse(v) => SpecClientError::UnexpectedResponse(v@),
        }
    }
}

/// What the client makes of the answer to `GET`: null is no value; a bulk
/// or simple string is the value as text; an error is that error; anything
/// else is unexpected.
pub open spec fn spec_get_reply(reply: SpecValue) -> Result<Option<Seq<char>>, SpecClientError> {
    match reply {
        SpecValue::Null => Ok(None),
        SpecValue::BulkString(s) => Ok(Some(lossy_decode(s))),
        SpecValue::String(s) => Ok(Some(lossy_decode(s))),
        SpecValue::Error(e) => Err(SpecClientError::Server(lossy_decode(e))),
        _ => Err(SpecClientError::UnexpectedResponse(reply)),
    }
}

/// What the client makes of the answer to `SET`: a simple string is
/// success; an error is that error; anything else is unexpected.
pub open spec fn spec_set_reply(reply: SpecValue) -> Result<(), SpecClientError> {
    match reply {
        SpecValue::String(_) => Ok(()),
        SpecValue::Error(e) => Err(SpecClientError::Server(lossy_decode(e))),
        _ => Err(SpecClientError::UnexpectedResponse(reply)),
    }
}

/// The model of the outcome of a `GET`.
pub open spec fn get_outcome_view(r: Result<Option<String>, ClientError>) -> Result<Option<Seq<char>>, SpecClientError> {
    match r {
        Ok(Some(t)) => Ok(Some(t@)),
        Ok(None) => Ok(None),
        Err(e) => Err(e@),
    }
}

/// The model of the outcome of a `SET`.
pub open spec fn set_outcome_view(r: Result<(), ClientError>) -> Result<(), SpecClientError> {
    match r {
        Ok(()) => Ok(()),
        Err(e) => Err(e@),
    }
}

/// What the client makes of the answer to `GET`, as `spec_get_reply` tells.
pub fn read_get_reply(reply: Value) -> (r: Result<Option<String>, ClientError>)
    ensures
        get_outcome_view(r) == spec_get_reply(reply@),
        reply@ is Null ==> r matches Ok(None),
        (reply@ is String || reply@ is BulkString) ==> r matches Ok(Some(_)),
        !(reply@ is Null || reply@ is String || reply@ is BulkString) ==> r is Err,
{
    match reply {
        Value::Null => Ok(None),
        Value::BulkString(s) => Ok(Some(s.to_string())),
        Value::String(s) => Ok(Some(s.to_string())),
        Value::Error(e) => Err(ClientError::Server(e.to_string())),
        other => Err(ClientError::UnexpectedResponse(other)),
    }
}

/// What the client makes of the answer to `SET`, as `spec_set_reply` tells.
pub fn read_set_reply(reply: Value) -> (r: Result<(), ClientError>)
    ensures
        set_outcome_view(r) == spec_set_reply(reply@),
        reply@ is String ==> r is Ok,
        !(reply@ is String) ==> r is Err,
{
    match reply {
        Value::String(_) => Ok(()),
        Value::Error(e) => Err(ClientError::Server(e.to_string())),
        other => Err(ClientError::UnexpectedResponse(other)),
    }
}

/// Every simple string answers a `SET` with success, whatever it says;
/// an error is that error; anything else is unexpected.
pub proof fn lemma_set_reply_cases(reply: SpecValue)
    ensures
        reply is String ==> spec_set_reply(reply) == Ok::<(), SpecClientError>(()),
        reply matches SpecValue::Error(e) ==> spec_set_reply(reply) == Err::<(), SpecClientError>(
            SpecClientError::Server(lossy_decode(e)),
        ),
        !(reply is String || reply is Error) ==> spec_set_reply(reply) == Err::<(), SpecClientError>(
            SpecClientError::UnexpectedResponse(reply),
        ),
{
}

/// A `GET` reads a bulk string and a simple string with the same bytes
/// alike, and null as no value; an answer that is neither, nor an error, is
/// unexpected.
pub proof fn lemma_get_reply_cases(reply: SpecValue, s: Seq<u8>)
    ensures
        spec_get_reply(SpecValue::BulkString(s)) == spec_get_reply(SpecValue::String(s)),
        spec_get_reply(SpecValue::String(s)) == Ok::<Option<Seq<char>>, SpecClientError>(Some(lossy_decode(s))),
        spec_get_reply(SpecValue::Null) == Ok::<Option<Seq<char>>, SpecClientError>(None),
        !(reply is Null || reply is String || reply is BulkString || reply is Error) ==> spec_get_reply(reply)
            == Err::<Option<Seq<char>>, SpecClientError>(SpecClientError::UnexpectedResponse(reply)),
{
}

} // verus!
