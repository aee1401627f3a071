use orizuru::{Consumer, JobMessage, MessageDecodable, Store};

fn sample_job_payload(id: u64) -> Vec<u8> {
    rmp_serde::to_vec(&(id,)).unwrap()
}

fn key(s: &str) -> String {
    s.to_string()
}

#[test]
fn derives_the_key_schema() {
    let consumer = Consumer::new("martin".to_string(), "stream".to_string());
    assert_eq!(consumer.name(), "martin");
    assert_eq!(consumer.source_queue(), "stream");
    assert_eq!(consumer.processing_queue(), "orizuru:consumers:martin:processing");
    assert_eq!(consumer.unacked_queue(), "orizuru:consumers:martin:unacked");
    assert_eq!(consumer.heartbeat_key(), "orizuru:consumers:martin:heartbeat");
    assert_eq!(consumer.heartbeats_key(), "orizuru:heartbeats");
    assert_eq!(consumer.consumers_key(), "orizuru:consumers");
}

#[test]
fn decodes_job() {
    let mut store = Store::new();
    let consumer = Consumer::new("c-decode".to_string(), "q-decode".to_string());
    store.lpush(&key(consumer.source_queue()), sample_job_payload(42));

    let j = consumer.next::<JobMessage>(&mut store).unwrap().unwrap();
    assert_eq!(42, j.message().id);
}

#[test]
fn unacked_to_unack_queue() {
    let mut store = Store::new();
    let consumer = Consumer::new("c-unacked".to_string(), "q-unacked".to_string());
    let pqueue = key(consumer.processing_queue());
    let uqueue = key(consumer.unacked_queue());

    store.lpush(&key(consumer.source_queue()), sample_job_payload(42));

    {
        let mut j = consumer.next::<JobMessage>(&mut store).unwrap().unwrap();
        assert_eq!(42, j.message().id);
        assert_eq!(1, store.llen(&pqueue));
        assert_eq!(sample_job_payload(42), *store.lindex(&pqueue, 0).unwrap());
        // leaving the scope without ack or reject releases the guard
        j.release(&mut store);
    }

    assert_eq!(0, store.llen(&pqueue));
    assert_eq!(1, store.llen(&uqueue));
}

#[test]
fn rejected_to_unack_queue() {
    let mut store = Store::new();
    let consumer = Consumer::new("c-rejected".to_string(), "q-rejected".to_string());
    let pqueue = key(consumer.processing_queue());
    let uqueue = key(consumer.unacked_queue());

    store.lpush(&key(consumer.source_queue()), sample_job_payload(42));

    {
        let mut j = consumer.next::<JobMessage>(&mut store).unwrap().unwrap();
        assert_eq!(42, j.message().id);
        assert_eq!(1, store.llen(&pqueue));
        assert_eq!(sample_job_payload(42), *store.lindex(&pqueue, 0).unwrap());
        j.reject(&mut store);
    }

    assert_eq!(0, store.llen(&pqueue));
    assert_eq!(1, store.llen(&uqueue));
}

#[test]
fn acked_are_released() {
    let mut store = Store::new();
    let consumer = Consumer::new("c-acked".to_string(), "q-acked".to_string());
    let pqueue = key(consumer.processing_queue());

    store.lpush(&key(consumer.source_queue()), sample_job_payload(42));

    let mut m = consumer.next::<JobMessage>(&mut store).unwrap().unwrap();
    let removed = m.ack(&mut store);
    assert_eq!(1, removed);
    assert_eq!(0, store.llen(&pqueue));
}

#[test]
fn can_be_stopped() {
    let mut store = Store::new();
    let mut consumer = Consumer::new("c-stop".to_string(), "q-stop".to_string());
    store.lpush(&key(consumer.source_queue()), sample_job_payload(1));
    store.lpush(&key(consumer.source_queue()), sample_job_payload(2));
    store.lpush(&key(consumer.source_queue()), sample_job_payload(3));

    assert_eq!(3, consumer.size(&store));

    while let Some(m) = consumer.next::<JobMessage>(&mut store) {
        let _m = m.unwrap();
        consumer.stop(&mut store);
    }

    assert_eq!(2, consumer.size(&store));
}

#[test]
fn stop_mid_stream() {
    let mut store = Store::new();
    let mut consumer = Consumer::new("c-mid".to_string(), "q-mid".to_string());
    let source = key(consumer.source_queue());
    let uqueue = key(consumer.unacked_queue());
    store.lpush(&source, sample_job_payload(1));
    store.lpush(&source, sample_job_payload(2));
    store.lpush(&source, sample_job_payload(3));

    let mut claimed: u64 = 0;
    while let Some(m) = consumer.next::<JobMessage>(&mut store) {
        let mut g = m.unwrap();
        claimed += 1;
        consumer.stop(&mut store);
        g.release(&mut store);
    }

    assert_eq!(1, claimed);
    assert_eq!(2, store.llen(&source));
    assert_eq!(1, store.llen(&uqueue));
}

#[test]
fn empty_source_is_recoverable() {
    let mut store = Store::new();
    let consumer = Consumer::new("c-empty".to_string(), "q-empty".to_string());
    let r = consumer.next::<JobMessage>(&mut store);
    assert_eq!(Some(Err("no message available")), r.map(|x| x.map(|_| ())));
}

#[test]
fn decode_failure_stays_in_processing() {
    let mut store = Store::new();
    let consumer = Consumer::new("c-bad".to_string(), "q-bad".to_string());
    let pqueue = key(consumer.processing_queue());
    store.lpush(&key(consumer.source_queue()), vec![1, 2, 3]);

    let r = consumer.next::<JobMessage>(&mut store).unwrap();
    assert_eq!(Err("failed to decode value with msgpack"), r.map(|_| ()));
    assert_eq!(0, consumer.size(&store));
    assert_eq!(1, store.llen(&pqueue));
    assert_eq!(vec![1, 2, 3], *store.lindex(&pqueue, 0).unwrap());
}

#[test]
fn pushed_to_chosen_queue() {
    let mut store = Store::new();
    let consumer = Consumer::new("c-push".to_string(), "q-push".to_string());
    let pqueue = key(consumer.processing_queue());
    let retry = key("retry");

    store.lpush(&key(consumer.source_queue()), sample_job_payload(42));

    let mut j = consumer.next::<JobMessage>(&mut store).unwrap().unwrap();
    j.push(&mut store, &retry);

    assert_eq!(0, store.llen(&pqueue));
    assert_eq!(1, store.llen(&retry));
    assert_eq!(sample_job_payload(42), *store.lindex(&retry, 0).unwrap());
}

#[test]
fn no_heartbeat() {
    let store = Store::new();
    let consumer = Consumer::new("c-nohb".to_string(), "q-nohb".to_string());
    let single = store.expiring_get(&key(consumer.heartbeat_key()));
    assert_eq!(None, single);
}

#[test]
fn one_heartbeat() {
    let mut store = Store::new();
    let consumer = Consumer::new("c-onehb".to_string(), "q-onehb".to_string());

    let ts = consumer.heartbeat(&mut store, 1_000_000, 5000);

    let all = store.hget(&key(consumer.name()));
    let single = store.expiring_get(&key(consumer.heartbeat_key()));

    assert_eq!(Some(ts), all);
    assert_eq!(Some((ts, 5000)), single);
}

#[test]
fn multiple_heartbeat() {
    let mut store = Store::new();
    let consumer = Consumer::new("c-multihb".to_string(), "q-multihb".to_string());

    let _ = consumer.heartbeat(&mut store, 1_000_000, 5000);
    let _ = consumer.heartbeat(&mut store, 1_000_300, 5000);
    let ts = consumer.heartbeat(&mut store, 1_000_600, 5000);

    let all = store.hget(&key(consumer.name()));
    let single = store.expiring_get(&key(consumer.heartbeat_key()));

    assert_eq!(Some(ts), all);
    assert_eq!(Some((ts, 5000)), single);
}

#[test]
fn register() {
    let mut store = Store::new();
    let consumer = Consumer::new("c-reg".to_string(), "q-reg".to_string());

    let _ = consumer.register(&mut store);
    let rv = store.sismember(&key(consumer.name()));

    assert!(rv);
}
