use misty::{Frame, HeadFrame, MistyCodec, TailFrame};
use std::collections::BTreeMap;

fn payload_of(frame: Frame) -> Vec<u8> {
    let mut codec = MistyCodec::new();
    let mut out = Vec::new();
    codec.encode(frame, &mut out).expect("frame encodes");
    let n = u32::from_be_bytes([out[0], out[1], out[2], out[3]]) as usize;
    assert_eq!(out.len(), 4 + n);
    out[4..].to_vec()
}

fn decode_payload(payload: &[u8]) -> Frame {
    let mut record = (payload.len() as u32).to_be_bytes().to_vec();
    record.extend_from_slice(payload);
    MistyCodec::new().decode(&mut record).expect("no error").expect("a frame")
}

#[test]
fn tail_matches_msgpack_tagged_union() {
    for status in [0u16, 4, 200, 4000] {
        let mut map = BTreeMap::new();
        map.insert("Tail", (status,));
        let expected = rmp_serde::to_vec(&map).unwrap();
        assert_eq!(payload_of(Frame::Tail(TailFrame { status })), expected);
        assert_eq!(decode_payload(&expected), Frame::Tail(TailFrame { status }));
    }
}

#[test]
fn data_matches_msgpack_tagged_union() {
    for size in [0usize, 3, 300, 70000] {
        let body: Vec<u8> = (0..size).map(|i| (i * 7) as u8).collect();
        let mut map = BTreeMap::new();
        map.insert("Data", bytes::Bytes::from(body.clone()));
        let expected = rmp_serde::to_vec(&map).unwrap();
        assert_eq!(payload_of(Frame::Data(body.clone())), expected);
        assert_eq!(decode_payload(&expected), Frame::Data(body));
    }
}

#[test]
fn head_matches_msgpack_tagged_union() {
    let mut service_id = [0u8; 32];
    let mut method_id = [0u8; 32];
    for i in 0..32 {
        service_id[i] = (i as u8).wrapping_mul(37);
        method_id[i] = 200 + (i as u8 % 50);
    }
    let mut map = BTreeMap::new();
    map.insert("Head", (service_id, method_id));
    let expected = rmp_serde::to_vec(&map).unwrap();
    let head = HeadFrame { service_id, method_id };
    assert_eq!(payload_of(Frame::Head(head)), expected);
    assert_eq!(decode_payload(&expected), Frame::Head(head));
}
