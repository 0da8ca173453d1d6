//! A small key-value store speaking the RESP wire protocol: value encoding
//! and decoding, command parsing, the storage of each shard and how keys are
//! spread over shards, and the decisions of the server and the client.

pub mod backend;
mod bytes;
pub mod client;
pub mod command;
pub mod decimal;
pub mod errors;
pub mod exchange;
pub mod resp;
pub mod server;
pub mod text;

pub use crate::backend::BBStoreBackend;
pub use crate::bytes::{ByteStr, ByteString};
pub use crate::command::{Command, ConfigArgs, ConfigCommand};
pub use crate::errors::ProtocolError;
pub use crate::resp::decode::{DecodeError, Decoder};
pub use crate::resp::value::Value;

use vstd::prelude::*;

verus! {

/// Where the server keeps its configuration.
pub const DEFAULT_CONFIG_FILEPATH: &'static str = "/usr/local/etc/bbstore/bbstore.conf";

/// The address that the server listens on unless told otherwise.
pub const DEFAULT_ADDRESS: &'static str = "127.0.0.1";

/// The port that the server listens on unless told otherwise.
pub const DEFAULT_PORT: usize = 8080;

/// The number of shards unless told otherwise.
pub const DEFAULT_NUM_SHARDS: usize = 4;

/// The capacity of each shard's request queue unless told otherwise.
pub const DEFAULT_BUFFER_SIZE: usize = 10;

/// How the server is set up.
#[derive(Clone, Debug)]
pub struct BBStoreConfig {
    pub address: String,
    pub num_shards: usize,
    pub buffer_size: usize,
}

} // verus!
