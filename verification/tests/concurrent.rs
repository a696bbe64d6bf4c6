//! Concurrent SET calls on one key, serialized by a mutex around the store,
//! followed by a GET that must observe one of the written values.

use resp_kv::command::execute;
use resp_kv::resp::RespType;
use resp_kv::store::Store;
use std::sync::{Arc, Mutex};

fn bulk(s: &[u8]) -> RespType {
    RespType::BulkString(Some(s.to_vec()))
}

fn req(parts: &[&[u8]]) -> RespType {
    RespType::Array(Some(parts.iter().map(|p| bulk(p)).collect()))
}

#[test]
fn concurrent_sets_then_get_yields_one_of_the_values() {
    let store = Arc::new(Mutex::new(Store::new()));
    let runtime = tokio::runtime::Builder::new_multi_thread()
        .worker_threads(4)
        .build()
        .unwrap();
    runtime.block_on(async {
        let mut handles = Vec::new();
        for i in 0..8u8 {
            let shared = store.clone();
            handles.push(tokio::spawn(async move {
                let value = vec![b'v', b'0' + i];
                let request = RespType::Array(Some(vec![
                    bulk(b"SET"),
                    bulk(b"shared-key"),
                    bulk(&value),
                ]));
                let reply = {
                    let mut guard = shared.lock().unwrap();
                    execute(&mut guard, request)
                };
                assert_eq!(reply, Ok(b"+OK\r\n".to_vec()));
            }));
        }
        for handle in handles {
            handle.await.unwrap();
        }
    });
    let mut guard = store.lock().unwrap();
    let reply = execute(&mut guard, req(&[b"GET", b"shared-key"])).unwrap();
    let winners: Vec<Vec<u8>> = (0..8u8)
        .map(|i| {
            let mut expect = b"+v".to_vec();
            expect.push(b'0' + i);
            expect.extend_from_slice(b"\r\n");
            expect
        })
        .collect();
    assert!(winners.contains(&reply));
}
