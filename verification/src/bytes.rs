//! Byte strings, owned and borrowed.

use vstd::prelude::*;
use vstd::string::*;
use vstd::utf8::encode_utf8;

use crate::text::{lossy_decode, string_from_utf8_lossy};

verus! {

/// A borrowed run of raw bytes.
#[derive(Hash)]
pub struct ByteStr<'a>(pub &'a [u8]);

impl<'a> ByteStr<'a> {
    /// Views `bytes` as a `ByteStr`.
    pub fn new(bytes: &'a [u8]) -> (r: ByteStr<'a>)
        ensures
            r.0@ == bytes@,
    {
        ByteStr(bytes)
    }

    /// Views the slice `slice` as a `ByteStr`.
    pub fn from_bytes(slice: &'a [u8]) -> (r: ByteStr<'a>)
        ensures
            r.0@ == slice@,
    {
        ByteStr(slice)
    }
}

/// An owned run of raw bytes, as carried by RESP strings.
#[derive(PartialEq, Eq, Hash, Debug, Clone)]
pub struct ByteString(pub Vec<u8>);

impl View for ByteString {
    type V = Seq<u8>;

    open spec fn view(&self) -> Seq<u8> {
        self.0@
    }
}

impl ByteString {
    /// The bytes held.
    pub fn as_bytes(&self) -> (r: &[u8])
        ensures
            r@ == self@,
    {
        self.0.as_slice()
    }

    /// Borrows the bytes held as a `ByteStr`.
    pub fn as_byte_str(&self) -> (r: ByteStr<'_>)
        ensures
            r.0@ == self@,
    {
        ByteStr::new(self.0.as_slice())
    }

    /// The bytes held as text, each invalid UTF-8 sequence replaced by
    /// U+FFFD.
    pub fn to_string(&self) -> (r: String)
        ensures
            r@ == lossy_decode(self@),
    {
        string_from_utf8_lossy(self.0.as_slice())
    }

    /// The number of bytes held.
    pub fn len(&self) -> (r: usize)
        ensures
            r == self@.len(),
    {
        self.0.len()
    }

    /// Whether no byte is held.
    pub fn is_empty(&self) -> (r: bool)
        ensures
            r == (self@.len() == 0),
    {
        self.0.len() == 0
    }
}

impl From<Vec<u8>> for ByteString {
    fn from(value: Vec<u8>) -> (r: ByteString)
        ensures
            r@ == value@,
    {
        ByteString(value)
    }
}

impl From<String> for ByteString {
    fn from(value: String) -> (r: ByteString)
        ensures
            r@ == encode_utf8(value@),
    {
        ByteString(value.as_str().as_bytes_vec())
    }
}

impl vstd::std_specs::convert::FromSpecImpl<String> for ByteString {
    open spec fn obeys_from_spec() -> bool {
        false
    }

    open spec fn from_spec(v: String) -> ByteString {
        vstd::pervasive::arbitrary()
    }
}

impl vstd::std_specs::convert::FromSpecImpl<Vec<u8>> for ByteString {
    open spec fn obeys_from_spec() -> bool {
        true
    }

    open spec fn from_spec(v: Vec<u8>) -> ByteString {
        ByteString(v)
    }
}

impl<'a> From<&'a str> for ByteString {
    fn from(value: &'a str) -> (r: ByteString)
        ensures
            r@ == encode_utf8(value@),
    {
        ByteString(value.as_bytes_vec())
    }
}

impl<'a> vstd::std_specs::convert::FromSpecImpl<&'a str> for ByteString {
    open spec fn obeys_from_spec() -> bool {
        false
    }

    open spec fn from_spec(v: &'a str) -> ByteString {
        vstd::pervasive::arbitrary()
    }
}

} // verus!
