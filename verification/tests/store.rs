use bbstore::backend::{shard_index, ShardReply, ShardRequest};
use bbstore::BBStoreBackend;

#[test]
fn backend_insert_then_get() {
    let mut b = BBStoreBackend::new();
    assert_eq!(b.get("k"), None);
    assert_eq!(b.insert("k".to_string(), "v1".to_string()), None);
    assert_eq!(b.get("k"), Some(&"v1".to_string()));
    assert_eq!(b.insert("k".to_string(), "v2".to_string()), Some("v1".to_string()));
    assert_eq!(b.get("k"), Some(&"v2".to_string()));
    assert_eq!(b.get("other"), None);
}

#[test]
fn backend_apply() {
    let mut b = BBStoreBackend::default();
    assert!(matches!(b.apply(ShardRequest::Read { key: "a".to_string() }), ShardReply::Value(None)));
    assert!(matches!(
        b.apply(ShardRequest::Write { key: "a".to_string(), value: "1".to_string() }),
        ShardReply::Written
    ));
    assert!(matches!(
        b.apply(ShardRequest::Read { key: "a".to_string() }),
        ShardReply::Value(Some(ref v)) if v == "1"
    ));
}

#[test]
fn sharded_keys_are_isolated() {
    let n = 4;
    let mut shards: Vec<BBStoreBackend> = (0..n).map(|_| BBStoreBackend::new()).collect();
    for i in 0..20 {
        let key = format!("key-{}", i);
        let s = shard_index(&key, n);
        assert!(s < n);
        shards[s].insert(key, format!("val-{}", i));
    }
    for i in 0..20 {
        let key = format!("key-{}", i);
        let s = shard_index(&key, n);
        assert_eq!(shards[s].get(&key), Some(&format!("val-{}", i)));
    }
    let distinct: std::collections::HashSet<usize> = (0..20).map(|i| shard_index(&format!("key-{}", i), n)).collect();
    assert!(distinct.len() > 1);
}

#[test]
fn shard_index_is_stable() {
    assert_eq!(shard_index("same", 7), shard_index("same", 7));
    assert_eq!(shard_index("anything", 1), 0);
}

/// The shards of a store, each request routed to the shard that owns its key.
struct Shards {
    shards: Vec<BBStoreBackend>,
}

impl Shards {
    fn new(num_shards: usize) -> Self {
        Shards { shards: (0..num_shards).map(|_| BBStoreBackend::default()).collect() }
    }

    fn insert(&mut self, key: String, value: String) {
        let s = shard_index(&key, self.shards.len());
        assert!(matches!(self.shards[s].apply(ShardRequest::Write { key, value }), ShardReply::Written));
    }

    fn get(&mut self, key: String) -> Option<String> {
        let s = shard_index(&key, self.shards.len());
        match self.shards[s].apply(ShardRequest::Read { key }) {
            ShardReply::Value(found) => found,
            ShardReply::Written => panic!("a read was answered as a write"),
        }
    }
}

#[test]
fn bbstore_get_missing_key_returns_none() {
    let mut store = Shards::new(2);
    assert!(store.get("missing".to_string()).is_none());
}

#[test]
fn bbstore_insert_then_get_returns_value() {
    let mut store = Shards::new(2);
    store.insert("k".to_string(), "v".to_string());
    assert_eq!(store.get("k".to_string()), Some("v".to_string()));
}

#[test]
fn bbstore_insert_overwrites_existing_key() {
    let mut store = Shards::new(2);
    store.insert("k".to_string(), "v1".to_string());
    store.insert("k".to_string(), "v2".to_string());
    assert_eq!(store.get("k".to_string()), Some("v2".to_string()));
}

#[test]
fn bbstore_distinct_keys_do_not_collide() {
    let mut store = Shards::new(2);
    store.insert("a".to_string(), "1".to_string());
    store.insert("b".to_string(), "2".to_string());
    assert_eq!(store.get("a".to_string()), Some("1".to_string()));
    assert_eq!(store.get("b".to_string()), Some("2".to_string()));
}

#[test]
fn bbstore_keys_are_isolated_across_shards() {
    let mut store = Shards::new(4);
    for i in 0..20 {
        store.insert(format!("key-{}", i), format!("val-{}", i));
    }
    for i in 0..20 {
        assert_eq!(store.get(format!("key-{}", i)), Some(format!("val-{}", i)));
    }
}
