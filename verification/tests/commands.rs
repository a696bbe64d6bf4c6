//! Dispatcher behavior: the command table, arity errors, the fallback, and
//! case handling, each on concrete requests.

use resp_kv::command::execute;
use resp_kv::resp::RespType;
use resp_kv::store::Store;

fn bulk(s: &[u8]) -> RespType {
    RespType::BulkString(Some(s.to_vec()))
}

fn req(parts: &[&[u8]]) -> RespType {
    RespType::Array(Some(parts.iter().map(|p| bulk(p)).collect()))
}

#[test]
fn set_then_get_returns_value() {
    let mut store = Store::new();
    let r = execute(&mut store, req(&[b"SET", b"key", b"value"]));
    assert_eq!(r, Ok(b"+OK\r\n".to_vec()));
    let r = execute(&mut store, req(&[b"GET", b"key"]));
    assert_eq!(r, Ok(b"+value\r\n".to_vec()));
}

#[test]
fn set_overwrites() {
    let mut store = Store::new();
    execute(&mut store, req(&[b"SET", b"k", b"one"])).unwrap();
    execute(&mut store, req(&[b"SET", b"k", b"two"])).unwrap();
    assert_eq!(execute(&mut store, req(&[b"GET", b"k"])), Ok(b"+two\r\n".to_vec()));
}

#[test]
fn get_missing_key_is_null_bulk() {
    let mut store = Store::new();
    let r = execute(&mut store, req(&[b"GET", b"never-written"]));
    assert_eq!(r, Ok(b"$-1\r\n".to_vec()));
}

#[test]
fn echo_returns_argument() {
    let mut store = Store::new();
    let r = execute(&mut store, req(&[b"ECHO", b"hello world"]));
    assert_eq!(r, Ok(b"+hello world\r\n".to_vec()));
}

#[test]
fn echo_preserves_argument_case() {
    let mut store = Store::new();
    let r = execute(&mut store, req(&[b"echo", b"MiXeD CaSe"]));
    assert_eq!(r, Ok(b"+MiXeD CaSe\r\n".to_vec()));
}

#[test]
fn ping_always_pongs() {
    let mut store = Store::new();
    assert_eq!(execute(&mut store, req(&[b"PING"])), Ok(b"+PONG\r\n".to_vec()));
    assert_eq!(
        execute(&mut store, req(&[b"ping", b"a", b"b", b"c"])),
        Ok(b"+PONG\r\n".to_vec())
    );
}

#[test]
fn unrecognized_shapes_fall_back_to_pong() {
    let mut store = Store::new();
    let pong = Ok(b"+PONG\r\n".to_vec());
    assert_eq!(execute(&mut store, RespType::SimpleString(b"hi".to_vec())), pong);
    assert_eq!(execute(&mut store, RespType::Array(None)), pong);
    assert_eq!(execute(&mut store, RespType::Array(Some(vec![]))), pong);
    assert_eq!(execute(&mut store, RespType::BulkString(None)), pong);
    assert_eq!(
        execute(
            &mut store,
            RespType::Array(Some(vec![RespType::BulkString(None), bulk(b"ECHO")]))
        ),
        pong
    );
}

#[test]
fn echo_arity_errors_are_exact() {
    let mut store = Store::new();
    let msg = Err(b"ECHO command requires exactly 1 argument".to_vec());
    assert_eq!(execute(&mut store, req(&[b"ECHO"])), msg);
    assert_eq!(execute(&mut store, req(&[b"ECHO", b"a", b"b"])), msg);
}

#[test]
fn set_arity_errors_are_exact() {
    let mut store = Store::new();
    let msg = Err(b"SET command requires exactly 2 arguments".to_vec());
    assert_eq!(execute(&mut store, req(&[b"SET"])), msg);
    assert_eq!(execute(&mut store, req(&[b"SET", b"k"])), msg);
    assert_eq!(execute(&mut store, req(&[b"SET", b"k", b"v", b"x"])), msg);
}

#[test]
fn get_arity_errors_are_exact() {
    let mut store = Store::new();
    let msg = Err(b"GET command requires exactly 1 argument".to_vec());
    assert_eq!(execute(&mut store, req(&[b"GET"])), msg);
    assert_eq!(execute(&mut store, req(&[b"GET", b"a", b"b"])), msg);
}

#[test]
fn unknown_command_names_the_folded_word() {
    let mut store = Store::new();
    assert_eq!(
        execute(&mut store, req(&[b"FLUSH", b"x"])),
        Err(b"Unknown command: FLUSH".to_vec())
    );
    assert_eq!(
        execute(&mut store, req(&[b"flush"])),
        Err(b"Unknown command: FLUSH".to_vec())
    );
}

#[test]
fn command_word_is_case_insensitive() {
    let mut store = Store::new();
    execute(&mut store, req(&[b"set", b"k", b"v"])).unwrap();
    assert_eq!(execute(&mut store, req(&[b"Get", b"k"])), Ok(b"+v\r\n".to_vec()));
    assert_eq!(execute(&mut store, req(&[b"gEt", b"k"])), Ok(b"+v\r\n".to_vec()));
    assert_eq!(execute(&mut store, req(&[b"GET", b"k"])), Ok(b"+v\r\n".to_vec()));
}

#[test]
fn non_bulk_elements_are_dropped_from_arguments() {
    let mut store = Store::new();
    let r = execute(
        &mut store,
        RespType::Array(Some(vec![
            bulk(b"ECHO"),
            RespType::Array(None),
            bulk(b"kept"),
            RespType::BulkString(None),
        ])),
    );
    assert_eq!(r, Ok(b"+kept\r\n".to_vec()));
}

#[test]
fn store_get_returns_copy() {
    let store = {
        let mut s = Store::new();
        s.set(b"a".to_vec(), b"1".to_vec());
        s
    };
    assert_eq!(store.get(&b"a".to_vec()), Some(b"1".to_vec()));
    assert_eq!(store.get(&b"a".to_vec()), Some(b"1".to_vec()));
    assert_eq!(store.get(&b"b".to_vec()), None);
}

#[test]
fn decoded_frame_executes_end_to_end() {
    let mut store = Store::new();
    let frame = resp_kv::decode::decode(b"*3\r\n$3\r\nset\r\n$1\r\nx\r\n$2\r\nok\r\n").unwrap();
    assert_eq!(execute(&mut store, frame), Ok(b"+OK\r\n".to_vec()));
    let frame = resp_kv::decode::decode(b"*2\r\n$3\r\nGET\r\n$1\r\nx\r\n").unwrap();
    assert_eq!(execute(&mut store, frame), Ok(b"+ok\r\n".to_vec()));
}
