//! The storage of one shard, and how keys are spread over shards.

use std::hash::{DefaultHasher, Hash, Hasher};

use vstd::hash_map::StringHashMap;
use vstd::std_specs::hash::DefaultHasherAdditionalSpecFns;
use vstd::prelude::*;

verus! {

/// The key-value map that one shard owns.
pub struct BBStoreBackend {
    mem: StringHashMap<String>,
}

impl View for BBStoreBackend {
    type V = Map<Seq<char>, String>;

    closed spec fn view(&self) -> Map<Seq<char>, String> {
        self.mem@
    }
}

/// What a shard is asked to do.
pub enum ShardRequest {
    Write { key: String, value: String },
    Read { key: String },
}

/// What a shard answers.
pub enum ShardReply {
    /// The write has been made.
    Written,
    /// The value that the key had, if it had one.
    Value(Option<String>),
}

/// What `m` holds for `key`, if anything.
pub open spec fn lookup(m: Map<Seq<char>, String>, key: Seq<char>) -> Option<String> {
    if m.contains_key(key) {
        Some(m[key])
    } else {
        None
    }
}

impl BBStoreBackend {
    /// An empty map.
    pub fn new() -> (r: BBStoreBackend)
        ensures
            r@ == Map::<Seq<char>, String>::empty(),
    {
        BBStoreBackend { mem: StringHashMap::new() }
    }

    /// Maps `key` to `value`, and gives back what `key` was mapped to before.
    pub fn insert(&mut self, key: String, value: String) -> (r: Option<String>)
        ensures
            final(self)@ == old(self)@.insert(key@, value),
            r == lookup(old(self)@, key@),
    {
        let previous = match self.mem.get(key.as_str()) {
            Some(v) => Some(v.clone()),
            None => None,
        };
        self.mem.insert(key, value);
        previous
    }

    /// What `key` is mapped to, if anything.
    pub fn get(&self, key: &str) -> (r: Option<&String>)
        ensures
            match r {
                Some(v) => lookup(self@, key@) == Some(*v),
                None => lookup(self@, key@) is None,
            },
    {
        self.mem.get(key)
    }

    /// Carries out one request: a write maps the key to the value; a read
    /// gives what the key is mapped to and changes nothing.
    pub fn apply(&mut self, request: ShardRequest) -> (r: ShardReply)
        ensures
            match request {
                ShardRequest::Write { key, value } => {
                    &&& final(self)@ == old(self)@.insert(key@, value)
                    &&& r is Written
                },
                ShardRequest::Read { key } => {
                    &&& final(self)@ == old(self)@
                    &&& r == ShardReply::Value(lookup(old(self)@, key@))
                },
            },
    {
        match request {
            ShardRequest::Write { key, value } => {
                self.insert(key, value);
                ShardReply::Written
            },
            ShardRequest::Read { key } => {
                let found = match self.get(key.as_str()) {
                    Some(v) => Some(v.clone()),
                    None => None,
                };
                ShardReply::Value(found)
            },
        }
    }
}

impl Default for BBStoreBackend {
    fn default() -> (r: BBStoreBackend)
        ensures
            r@ == Map::<Seq<char>, String>::empty(),
    {
        BBStoreBackend::new()
    }
}

/// The writes that hashing the text `key` makes to a `DefaultHasher`.
pub uninterp spec fn str_hash_writes(key: Seq<char>) -> Seq<Seq<u8>>;

/// `<str as Hash>::hash` into a `DefaultHasher`. The writes it makes are a
/// function of the text alone, named `str_hash_writes`; which bytes they
/// are is left to that name.
#[verifier::external_body]
fn hash_str_into(key: &str, hasher: &mut DefaultHasher)
    ensures
        final(hasher)@ == old(hasher)@ + str_hash_writes(key@),
{
    key.hash(hasher);
}

/// The shard, among `num_shards`, that owns `key`.
pub open spec fn shard_of(key: Seq<char>, num_shards: nat) -> int {
    (DefaultHasher::spec_finish(str_hash_writes(key)) as usize) as int % (num_shards as int)
}

/// The shard, among `num_shards`, that owns `key`: its hash modulo the
/// number of shards.
pub fn shard_index(key: &str, num_shards: usize) -> (r: usize)
    requires
        num_shards > 0,
    ensures
        r == shard_of(key@, num_shards as nat),
        r < num_shards,
{
    let mut hasher = DefaultHasher::new();
    hash_str_into(key, &mut hasher);
    assert(hasher@ =~= str_hash_writes(key@));
    (hasher.finish() as usize) % num_shards
}

/// The contents of all shards after `key` has been written with `value`
/// through the shard that owns it.
pub open spec fn sharded_insert(shards: Seq<Map<Seq<char>, String>>, key: Seq<char>, value: String) -> Seq<Map<Seq<char>, String>> {
    let i = shard_of(key, shards.len());
    shards.update(i, shards[i].insert(key, value))
}

/// What reading `key` through the shard that owns it gives.
pub open spec fn sharded_get(shards: Seq<Map<Seq<char>, String>>, key: Seq<char>) -> Option<String> {
    lookup(shards[shard_of(key, shards.len())], key)
}

/// A read of a key gives back the last value written to it, wherever the
/// shards route it.
pub proof fn lemma_read_after_write(shards: Seq<Map<Seq<char>, String>>, key: Seq<char>, value: String)
    requires
        shards.len() > 0,
    ensures
        sharded_get(sharded_insert(shards, key, value), key) == Some(value),
{
}

/// A write to one key leaves what every other key reads unchanged.
pub proof fn lemma_write_keeps_other_keys(
    shards: Seq<Map<Seq<char>, String>>,
    key: Seq<char>,
    value: String,
    other: Seq<char>,
)
    requires
        shards.len() > 0,
        other != key,
    ensures
        sharded_get(sharded_insert(shards, key, value), other) == sharded_get(shards, other),
{
}

/// A store that has just started holds no key: every read gives nothing.
pub proof fn lemma_fresh_store_is_empty(num_shards: nat, key: Seq<char>)
    requires
        num_shards > 0,
    ensures
        sharded_get(Seq::new(num_shards, |i: int| Map::<Seq<char>, String>::empty()), key) is None,
{
}

/// The map after the writes `writes`, one after the other, to `m`.
pub open spec fn after_writes(m: Map<Seq<char>, String>, writes: Seq<(Seq<char>, String)>) -> Map<Seq<char>, String>
    decreases writes.len(),
{
    if writes.len() == 0 {
        m
    } else {
        let (k, v) = writes.last();
        after_writes(m, writes.drop_last()).insert(k, v)
    }
}

/// The value of the last of `writes` to `key`, if any writes to it.
pub open spec fn last_write(writes: Seq<(Seq<char>, String)>, key: Seq<char>) -> Option<String>
    decreases writes.len(),
{
    if writes.len() == 0 {
        None
    } else if writes.last().0 == key {
        Some(writes.last().1)
    } else {
        last_write(writes.drop_last(), key)
    }
}

/// After a run of writes, a read gives the value of the last write to its
/// key, or, where none wrote to it, what it held before.
pub proof fn lemma_read_after_writes(m: Map<Seq<char>, String>, writes: Seq<(Seq<char>, String)>, key: Seq<char>)
    ensures
        lookup(after_writes(m, writes), key) == match last_write(writes, key) {
            Some(v) => Some(v),
            None => lookup(m, key),
        },
    decreases writes.len(),
{
    if writes.len() > 0 {
        lemma_read_after_writes(m, writes.drop_last(), key);
    }
}

} // verus!
