use orizuru::message::codec_round_trip;
use orizuru::{JobMessage, MessageDecodable, MessageEncodable};
use redis::Value;

#[test]
fn cant_decode_if_not_string() {
    let err = Err("can only decode from a string");
    assert_eq!(JobMessage::decode_message(&Value::Nil), err);
    assert_eq!(JobMessage::decode_message(&Value::Int(24)), err);
    assert_eq!(
        JobMessage::decode_message(&Value::Bulk(vec![Value::Nil])),
        err
    );
    assert_eq!(
        JobMessage::decode_message(&Value::Status("info".into())),
        err
    );
    assert_eq!(JobMessage::decode_message(&Value::Okay), err);
}

#[test]
fn cant_decode_if_not_msgpack() {
    let err = Err("failed to decode value with msgpack");
    assert_eq!(JobMessage::decode_message(&Value::Data(vec![1, 2, 3])), err);
}

#[test]
fn encodes_as_msgpack() {
    let b = JobMessage { id: 42 }.encode_message().unwrap();
    // a one-element array holding the positive fixint 42
    assert_eq!(vec![0x91u8, 0x2a], b);
    assert_eq!(rmp_serde::to_vec(&(42u64,)).unwrap(), b);
}

#[test]
fn decodes_own_encoding() {
    let b = JobMessage { id: 42 }.encode_message().unwrap();
    assert_eq!(
        Ok(JobMessage { id: 42 }),
        JobMessage::decode_bytes(b.as_slice())
    );
    assert_eq!(
        Ok(JobMessage { id: 9007 }),
        JobMessage::decode_message(&Value::Data(
            rmp_serde::to_vec(&(9007u64,)).unwrap()
        ))
    );
}

#[test]
fn round_trip_all_sizes() {
    for id in [0u64, 1, 127, 128, 255, 256, 65535, 65536, u64::MAX] {
        let v = JobMessage { id };
        assert_eq!(Ok(v), codec_round_trip(&v));
    }
}
