use std::sync::Arc;

use agentlink::messages::{ClientState, Coord, Point};
use agentlink::registry::Registry;

fn state(msg: &str, z: i64) -> ClientState {
    ClientState {
        last_message: msg.to_string(),
        current_position: Point::new(Coord::whole(0), Coord::whole(0), Coord::new(z, 1)),
    }
}

#[test]
fn get_before_any_upsert_is_none() {
    let r = Registry::new();
    assert!(r.get("nobody").is_none());
    assert_eq!(r.len(), 0);
}

#[test]
fn last_write_wins() {
    let mut r = Registry::new();
    r.upsert("id".to_string(), state("a", 1));
    r.upsert("id".to_string(), state("b", 2));
    let got = r.get("id").unwrap();
    assert_eq!(got, state("b", 2));
    assert_eq!(r.len(), 1);
}

#[test]
fn distinct_identifiers_do_not_interfere() {
    let mut r = Registry::new();
    r.upsert("one".to_string(), state("x", 1));
    r.upsert("two".to_string(), state("y", 2));
    assert_eq!(r.get("one").unwrap(), state("x", 1));
    assert_eq!(r.get("two").unwrap(), state("y", 2));
    assert_eq!(r.len(), 2);
}

#[test]
fn concurrent_upserts_keep_every_final_state() {
    const HANDLERS: usize = 8;
    const WRITES: i64 = 50;
    let rt = tokio::runtime::Builder::new_multi_thread()
        .worker_threads(4)
        .build()
        .unwrap();
    let shared = Arc::new(tokio::sync::Mutex::new(Registry::new()));
    rt.block_on(async {
        let mut tasks = Vec::new();
        for h in 0..HANDLERS {
            let reg = shared.clone();
            tasks.push(tokio::spawn(async move {
                let id = format!("agent-{}", h);
                for w in 0..WRITES {
                    let mut lock = reg.lock().await;
                    lock.upsert(id.clone(), state("step", w));
                    drop(lock);
                }
            }));
        }
        for t in tasks {
            t.await.unwrap();
        }
    });
    let reg = rt.block_on(async { shared.lock().await.len() });
    assert_eq!(reg, HANDLERS);
    for h in 0..HANDLERS {
        let id = format!("agent-{}", h);
        let got = rt.block_on(async { shared.lock().await.get(&id) }).unwrap();
        assert_eq!(got, state("step", WRITES - 1));
    }
}
