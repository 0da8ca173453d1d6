//! The RESP wire format: values, their encoding, and their decoding.

pub mod decode;
pub mod laws;
pub mod value;

use vstd::prelude::*;

verus! {

/// The largest length, exclusive, that a bulk string or an array may declare.
pub const RESP_MAX_SIZE: i64 = 536870912;

/// The two bytes that end every RESP line.
pub open spec fn crlf() -> Seq<u8> {
    seq![13u8, 10u8]
}

} // verus!
