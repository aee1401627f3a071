use orizuru::{Consumer, JobMessage, Producer, Store};

#[test]
fn producer_can_enqueue() {
    let mut store = Store::new();
    let consumer = Consumer::new("c-prod".to_string(), "q-prod".to_string());
    let producer = Producer::new(consumer.source_queue().to_string());

    assert_eq!(0, producer.size(&store));
    assert_eq!(0, consumer.size(&store));

    producer.push(&mut store, JobMessage { id: 53 }).unwrap();

    assert_eq!(1, producer.size(&store));
    assert_eq!(1, consumer.size(&store));

    let j = consumer.next::<JobMessage>(&mut store).unwrap().unwrap();
    assert_eq!(53, j.message().id);
}

#[test]
fn decode_round_trip() {
    let mut store = Store::new();
    let consumer = Consumer::new("c-round".to_string(), "q-round".to_string());
    let producer = Producer::new(consumer.source_queue().to_string());
    let source = consumer.source_queue().to_string();
    let pqueue = consumer.processing_queue().to_string();

    producer.push(&mut store, JobMessage { id: 42 }).unwrap();
    let guard = consumer.next::<JobMessage>(&mut store).unwrap().unwrap();

    assert_eq!(42, guard.message().id);
    assert_eq!(0, store.llen(&source));
    assert_eq!(1, store.llen(&pqueue));
}

#[test]
fn drop_rescues() {
    let mut store = Store::new();
    let consumer = Consumer::new("c-drop".to_string(), "q-drop".to_string());
    let producer = Producer::new(consumer.source_queue().to_string());
    let pqueue = consumer.processing_queue().to_string();
    let uqueue = consumer.unacked_queue().to_string();

    producer.push(&mut store, JobMessage { id: 42 }).unwrap();
    {
        let mut guard = consumer.next::<JobMessage>(&mut store).unwrap().unwrap();
        // the guard leaves scope without ack or reject
        guard.release(&mut store);
    }

    assert_eq!(0, store.llen(&pqueue));
    assert_eq!(1, store.llen(&uqueue));
    assert_eq!(
        rmp_serde::to_vec(&(42u64,)).unwrap(),
        *store.lindex(&uqueue, 0).unwrap()
    );
}

#[test]
fn explicit_reject() {
    let mut store = Store::new();
    let consumer = Consumer::new("c-rej".to_string(), "q-rej".to_string());
    let producer = Producer::new(consumer.source_queue().to_string());
    let pqueue = consumer.processing_queue().to_string();
    let uqueue = consumer.unacked_queue().to_string();

    producer.push(&mut store, JobMessage { id: 42 }).unwrap();
    let mut guard = consumer.next::<JobMessage>(&mut store).unwrap().unwrap();
    guard.reject(&mut store);

    assert_eq!(0, store.llen(&pqueue));
    assert_eq!(1, store.llen(&uqueue));
}

#[test]
fn explicit_ack() {
    let mut store = Store::new();
    let consumer = Consumer::new("c-ack".to_string(), "q-ack".to_string());
    let producer = Producer::new(consumer.source_queue().to_string());
    let pqueue = consumer.processing_queue().to_string();
    let uqueue = consumer.unacked_queue().to_string();

    producer.push(&mut store, JobMessage { id: 42 }).unwrap();
    let mut guard = consumer.next::<JobMessage>(&mut store).unwrap().unwrap();
    let removed = guard.ack(&mut store);

    assert_eq!(1, removed);
    assert_eq!(0, store.llen(&pqueue));
    assert_eq!(0, store.llen(&uqueue));
}

#[test]
fn heartbeat() {
    let mut store = Store::new();
    let consumer = Consumer::new("c-hb".to_string(), "q-hb".to_string());

    let ts = consumer.heartbeat(&mut store, 1_234_567, 5000);

    assert_eq!(ts, 1_234_567);
    assert_eq!(Some(ts), store.hget(&consumer.name().to_string()));
    let (value, ttl) = store
        .expiring_get(&consumer.heartbeat_key().to_string())
        .unwrap();
    assert_eq!(ts, value);
    assert_eq!(5000, ttl);
}
