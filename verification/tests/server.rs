use bbstore::backend::{shard_index, ShardReply, ShardRequest};
use bbstore::Decoder;
use bbstore::client::{read_get_reply, read_set_reply, ClientError};
use bbstore::server::{get_response, host_port, ok_response, read_request, resolve_address, server_config};
use bbstore::{BBStoreConfig, Command, Value, DEFAULT_BUFFER_SIZE, DEFAULT_NUM_SHARDS};

#[test]
fn responses() {
    assert_eq!(get_response(Some("v".to_string())), Value::BulkString("v".into()));
    assert_eq!(get_response(None), Value::Null);
    assert_eq!(ok_response(), Value::String("ok".into()));
}

#[test]
fn refused_requests_are_answered_with_an_error() {
    let answer = read_request(Value::Array(vec![Value::BulkString("GET".into())])).unwrap_err();
    assert_eq!(answer, Value::Error("\"GET\" requires \"key\"".into()));
    let answer = read_request(Value::Integer(1)).unwrap_err();
    assert_eq!(answer, Value::Error("empty command".into()));
    let cmd = read_request(Value::Array(vec![Value::BulkString("get".into()), Value::BulkString("k".into())])).unwrap();
    assert!(matches!(cmd, Command::Get { key } if key == "k"));
}

#[test]
fn addresses() {
    assert_eq!(host_port("localhost", 6379), "localhost:6379");
    assert_eq!(resolve_address(None, None, None), "127.0.0.1:8080");
    assert_eq!(resolve_address(Some("10.0.0.1:1".to_string()), None, None), "10.0.0.1:1");
    assert_eq!(resolve_address(Some("10.0.0.1:1".to_string()), None, Some(9)), "127.0.0.1:9");
    assert_eq!(resolve_address(None, Some("h".to_string()), None), "h:8080");
}

#[test]
fn server_configuration() {
    let c = server_config(None, None, None, None, None);
    assert_eq!(c.address, "127.0.0.1:8080");
    assert_eq!(c.num_shards, DEFAULT_NUM_SHARDS);
    assert_eq!(c.buffer_size, DEFAULT_BUFFER_SIZE);
    let file = BBStoreConfig { address: "0.0.0.0:1".to_string(), num_shards: 9, buffer_size: 99 };
    let c = server_config(Some(file), None, None, None, None);
    assert_eq!(c.address, "0.0.0.0:1");
    assert_eq!(c.num_shards, 9);
    assert_eq!(c.buffer_size, DEFAULT_BUFFER_SIZE);
    let file = BBStoreConfig { address: "0.0.0.0:1".to_string(), num_shards: 9, buffer_size: 99 };
    let c = server_config(Some(file), Some("h".to_string()), None, Some(2), Some(3));
    assert_eq!(c.address, "h:8080");
    assert_eq!(c.num_shards, 2);
    assert_eq!(c.buffer_size, 3);
}

#[test]
fn client_replies() {
    assert_eq!(read_get_reply(Value::Null).unwrap(), None);
    assert_eq!(read_get_reply(Value::BulkString("v".into())).unwrap(), Some("v".to_string()));
    assert_eq!(read_get_reply(Value::String("w".into())).unwrap(), Some("w".to_string()));
    assert!(matches!(read_get_reply(Value::Error("E".into())), Err(ClientError::Server(ref e)) if e == "E"));
    assert!(matches!(read_get_reply(Value::Integer(1)), Err(ClientError::UnexpectedResponse(Value::Integer(1)))));
    assert!(read_set_reply(Value::String("ok".into())).is_ok());
    assert!(matches!(read_set_reply(Value::Error("E".into())), Err(ClientError::Server(ref e)) if e == "E"));
    assert!(matches!(read_set_reply(Value::Null), Err(ClientError::UnexpectedResponse(Value::Null))));
}

fn exchange(server: &mut bbstore::BBStoreBackend, request: Command) -> Value {
    let wire = Value::from(request).encode();
    let mut server_side = Decoder::with_buf_bulk();
    server_side.feed(wire.as_bytes());
    let received = server_side.decode().unwrap().unwrap();
    let answer = match read_request(received) {
        Ok(Command::Get { key }) => {
            assert_eq!(shard_index(&key, 1), 0);
            match server.apply(ShardRequest::Read { key }) {
                ShardReply::Value(found) => get_response(found),
                ShardReply::Written => panic!("a read was answered as a write"),
            }
        }
        Ok(Command::SetKey { key, value }) => {
            server.apply(ShardRequest::Write { key, value });
            ok_response()
        }
        Ok(Command::Config(_)) => ok_response(),
        Err(refusal) => refusal,
    };
    let mut client_side = Decoder::new();
    client_side.feed(answer.encode().as_bytes());
    client_side.decode().unwrap().unwrap()
}

#[test]
fn get_after_set_through_the_wire() {
    let mut server = bbstore::BBStoreBackend::new();
    let missing = exchange(&mut server, Command::Get { key: "k".to_string() });
    assert_eq!(read_get_reply(missing).unwrap(), None);
    let set = exchange(&mut server, Command::SetKey { key: "k".to_string(), value: "h\u{e9}llo world".to_string() });
    assert!(read_set_reply(set).is_ok());
    let got = exchange(&mut server, Command::Get { key: "k".to_string() });
    assert_eq!(read_get_reply(got).unwrap(), Some("h\u{e9}llo world".to_string()));
}

struct Session<'a> {
    server: &'a mut bbstore::BBStoreBackend,
}

impl<'a> Session<'a> {
    fn set(&mut self, key: &str, value: &str) -> Result<(), ClientError> {
        let answer = exchange(self.server, Command::SetKey { key: key.to_string(), value: value.to_string() });
        read_set_reply(answer)
    }

    fn get(&mut self, key: &str) -> Result<Option<String>, ClientError> {
        let answer = exchange(self.server, Command::Get { key: key.to_string() });
        read_get_reply(answer)
    }
}

#[test]
fn set_and_get() {
    let mut server = bbstore::BBStoreBackend::new();
    let mut client = Session { server: &mut server };
    client.set("mykey", "myvalue").unwrap();
    assert_eq!(client.get("mykey").unwrap(), Some("myvalue".to_string()));
}

#[test]
fn integration_get_missing_key() {
    let mut server = bbstore::BBStoreBackend::new();
    let mut client = Session { server: &mut server };
    assert_eq!(client.get("missing").unwrap(), None);
}

#[test]
fn set_overwrites_existing_key() {
    let mut server = bbstore::BBStoreBackend::new();
    let mut client = Session { server: &mut server };
    client.set("k", "v1").unwrap();
    client.set("k", "v2").unwrap();
    assert_eq!(client.get("k").unwrap(), Some("v2".to_string()));
}

#[test]
fn integration_set_value_with_spaces() {
    let mut server = bbstore::BBStoreBackend::new();
    let mut client = Session { server: &mut server };
    client.set("k", "hello world").unwrap();
    assert_eq!(client.get("k").unwrap(), Some("hello world".to_string()));
}

#[test]
fn multiple_commands_on_same_connection() {
    let mut server = bbstore::BBStoreBackend::new();
    let mut client = Session { server: &mut server };
    for i in 0..10 {
        client.set(&format!("key-{}", i), &format!("val-{}", i)).unwrap();
    }
    for i in 0..10 {
        assert_eq!(client.get(&format!("key-{}", i)).unwrap(), Some(format!("val-{}", i)));
    }
}

#[test]
fn multiple_clients_independent() {
    let mut server = bbstore::BBStoreBackend::new();
    {
        let mut c1 = Session { server: &mut server };
        c1.set("shared", "v1").unwrap();
    }
    let mut c2 = Session { server: &mut server };
    assert_eq!(c2.get("shared").unwrap(), Some("v1".to_string()));
}
