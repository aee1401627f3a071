use orizuru::{Consumer, JobMessage, Producer, Store, GC};

#[test]
fn mixed_one_consumer() {
    let mut store = Store::new();
    let mut consumer = Consumer::new("c-mixed".to_string(), "q-mixed".to_string());
    let producer = Producer::new(consumer.source_queue().to_string());
    let gc = GC::new();

    assert!(consumer.register(&mut store));
    assert_eq!(0, producer.size(&store));
    assert_eq!(0, consumer.size(&store));

    for i in 0..15 {
        assert!(producer.push(&mut store, JobMessage { id: i }).is_ok());
    }

    let mut tick: u64 = 0;
    while let Some(m) = consumer.next::<JobMessage>(&mut store) {
        tick += 1;
        consumer.heartbeat(&mut store, 1_000_000 + tick, 100);

        if m.is_err() {
            continue;
        }

        let mut m = m.unwrap();
        let id = m.message().id;
        if id <= 7 {
            assert_eq!(1, m.ack(&mut store));
        } else if id > 7 && id < 14 {
            m.reject(&mut store);
        }

        if id == 14 {
            consumer.stop(&mut store);
        }
        m.release(&mut store);
    }

    assert!(consumer.is_stopped());
    // stopping deregistered the consumer, so the sweep of the registry finds
    // nobody; sweeping it by name still rescues the six rejected payloads
    // and the one that was released unacknowledged
    assert_eq!(gc.collect(&mut store), Ok(0));
    assert_eq!(gc.collect_one(&mut store, consumer.name()), Ok(7));
    assert_eq!(gc.collect_one(&mut store, consumer.name()), Ok(0));

    let _ = consumer.deregister(&mut store);
    let cons = store.smembers();
    assert!(!cons.contains(&String::from(consumer.name())));
}
