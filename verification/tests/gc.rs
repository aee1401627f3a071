use orizuru::{Consumer, Store, GC};

fn gc_job_payload(id: u64) -> Vec<u8> {
    rmp_serde::to_vec(&(id,)).unwrap()
}

fn gc_key(s: &str) -> String {
    s.to_string()
}

#[test]
fn collect_one_runs_with_no_jobs() {
    let mut store = Store::new();
    let consumer = Consumer::new("c-gc1".to_string(), "q-gc1".to_string());
    let gc = GC::new();
    assert_eq!(gc.collect_one(&mut store, consumer.name()), Ok(0));
}

#[test]
fn collect_one_runs_with_some_jobs() {
    let mut store = Store::new();
    let consumer = Consumer::new("c-gc2".to_string(), "q-gc2".to_string());
    let gc = GC::new();
    for i in 0..3 {
        store.lpush(&gc_key(consumer.unacked_queue()), gc_job_payload(i));
    }
    assert_eq!(gc.collect_one(&mut store, consumer.name()), Ok(3));
}

#[test]
fn collect_noop_with_no_consumers() {
    let mut store = Store::new();
    let gc = GC::new();
    assert_eq!(gc.collect(&mut store), Ok(0));
}

#[test]
fn collect_runs_with_a_consumer_and_no_jobs() {
    let mut store = Store::new();
    let consumer = Consumer::new("c-gc3".to_string(), "q-gc3".to_string());
    let gc = GC::new();
    let _ = consumer.register(&mut store);
    assert_eq!(gc.collect(&mut store), Ok(0));
}

#[test]
fn collect_runs_with_a_consumer_and_some_jobs() {
    let mut store = Store::new();
    let consumer = Consumer::new("c-gc4".to_string(), "q-gc4".to_string());
    let gc = GC::new();
    for i in 0..3 {
        store.lpush(&gc_key(consumer.unacked_queue()), gc_job_payload(i));
    }
    let _ = consumer.register(&mut store);
    for i in 0..3 {
        store.lpush(&gc_key(consumer.unacked_queue()), gc_job_payload(i));
    }
    assert_eq!(gc.collect(&mut store), Ok(6));
}

#[test]
fn gc_sweep() {
    let mut store = Store::new();
    let consumer = Consumer::new("c-sweep".to_string(), "q-sweep".to_string());
    let gc = GC::new();
    let uqueue = gc_key(consumer.unacked_queue());
    let pqueue = gc_key(consumer.processing_queue());
    for i in 0..3 {
        store.lpush(&uqueue, gc_job_payload(i));
    }
    let _ = consumer.register(&mut store);
    assert_eq!(gc.collect(&mut store), Ok(3));
    assert_eq!(0, store.llen(&uqueue));
    assert_eq!(3, store.llen(&pqueue));
}

#[test]
fn collect_is_idempotent_when_quiescent() {
    let mut store = Store::new();
    let consumer = Consumer::new("c-quiet".to_string(), "q-quiet".to_string());
    let gc = GC::new();
    let _ = consumer.register(&mut store);
    store.lpush(&gc_key(consumer.unacked_queue()), gc_job_payload(9));
    assert_eq!(gc.collect(&mut store), Ok(1));
    // a second sweep over the now-empty unacked queues moves nothing
    assert_eq!(gc.collect(&mut store), Ok(0));
    assert_eq!(1, store.llen(&gc_key(consumer.processing_queue())));
}
