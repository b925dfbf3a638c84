use misty::{Frame, HeadFrame, MistyCodec, NetError, Status, TailFrame, DEFAULT_MAX_FRAME_LENGTH};

fn encode_one(frame: Frame) -> Vec<u8> {
    let mut codec = MistyCodec::new();
    let mut out = Vec::new();
    codec.encode(frame, &mut out).expect("frame encodes");
    out
}

fn decode_one(bytes: &[u8]) -> Frame {
    let mut codec = MistyCodec::new();
    let mut buf = bytes.to_vec();
    let frame = codec.decode(&mut buf).expect("no error").expect("a frame");
    assert!(buf.is_empty());
    frame
}

fn sample_head() -> HeadFrame {
    let mut service_id = [0u8; 32];
    let mut method_id = [0u8; 32];
    for i in 0..32 {
        service_id[i] = (i as u8) * 9;
        method_id[i] = 255 - i as u8;
    }
    HeadFrame { service_id, method_id }
}

#[test]
fn round_trip_head() {
    let frame = Frame::Head(sample_head());
    assert_eq!(decode_one(&encode_one(frame.clone())), frame);
}

#[test]
fn round_trip_data_sizes() {
    for size in [0usize, 1, 5, 255, 256, 300, 65535, 65536, 70000] {
        let payload: Vec<u8> = (0..size).map(|i| (i % 251) as u8).collect();
        let frame = Frame::Data(payload);
        assert_eq!(decode_one(&encode_one(frame.clone())), frame);
    }
}

#[test]
fn round_trip_tail_codes() {
    for status in [0u16, 4, 127, 128, 255, 256, 4000, 65535] {
        let frame = Frame::Tail(TailFrame { status });
        assert_eq!(decode_one(&encode_one(frame.clone())), frame);
    }
}

#[test]
fn tail_record_bytes() {
    let bytes = encode_one(Frame::Tail(TailFrame { status: Status::ServiceNotFound.as_u16() }));
    assert_eq!(bytes, vec![0, 0, 0, 8, 0x81, 0xa4, b'T', b'a', b'i', b'l', 0x91, 0x04]);
}

#[test]
fn tail_record_bytes_wide_code() {
    let bytes = encode_one(Frame::Tail(TailFrame { status: 0x1234 }));
    assert_eq!(bytes, vec![0, 0, 0, 10, 0x81, 0xa4, b'T', b'a', b'i', b'l', 0x91, 0xcd, 0x12, 0x34]);
}

#[test]
fn data_record_bytes() {
    let bytes = encode_one(Frame::Data(vec![1, 2, 3]));
    assert_eq!(
        bytes,
        vec![0, 0, 0, 11, 0x81, 0xa4, b'D', b'a', b't', b'a', 0xc4, 3, 1, 2, 3]
    );
}

#[test]
fn head_record_bytes() {
    let head = HeadFrame { service_id: [0x80; 32], method_id: [1; 32] };
    let bytes = encode_one(Frame::Head(head));
    let mut expected = vec![0x81, 0xa4, b'H', b'e', b'a', b'd', 0x92, 0xdc, 0x00, 0x20];
    for _ in 0..32 {
        expected.extend_from_slice(&[0xcc, 0x80]);
    }
    expected.extend_from_slice(&[0xdc, 0x00, 0x20]);
    expected.extend_from_slice(&[1; 32]);
    let mut record = (expected.len() as u32).to_be_bytes().to_vec();
    record.extend_from_slice(&expected);
    assert_eq!(bytes, record);
}

#[test]
fn split_at_every_boundary() {
    let frames = vec![
        Frame::Head(sample_head()),
        Frame::Data(vec![9; 40]),
        Frame::Data(Vec::new()),
        Frame::Tail(TailFrame { status: 0 }),
    ];
    let mut stream = Vec::new();
    for f in &frames {
        stream.extend_from_slice(&encode_one(f.clone()));
    }
    for split in 0..=stream.len() {
        let mut codec = MistyCodec::new();
        let mut buf = Vec::new();
        let mut got = Vec::new();
        for chunk in [&stream[..split], &stream[split..]] {
            buf.extend_from_slice(chunk);
            while let Some(f) = codec.decode(&mut buf).expect("well formed") {
                got.push(f);
            }
        }
        assert_eq!(got, frames);
        assert!(buf.is_empty());
    }
}

#[test]
fn byte_by_byte_feeding() {
    let stream = encode_one(Frame::Data(vec![7; 300]));
    let mut codec = MistyCodec::new();
    let mut buf = Vec::new();
    let mut got = Vec::new();
    for b in &stream {
        buf.push(*b);
        if let Some(f) = codec.decode(&mut buf).expect("well formed") {
            got.push(f);
        }
    }
    assert_eq!(got, vec![Frame::Data(vec![7; 300])]);
}

#[test]
fn truncated_prefix_needs_more() {
    let mut codec = MistyCodec::new();
    let mut buf = vec![0, 0, 1];
    assert!(matches!(codec.decode(&mut buf), Ok(None)));
    assert_eq!(buf, vec![0, 0, 1]);
}

#[test]
fn incomplete_record_needs_more() {
    let mut codec = MistyCodec::new();
    let mut buf = vec![0, 0, 0, 8, 0x81, 0xa4];
    assert!(matches!(codec.decode(&mut buf), Ok(None)));
    assert_eq!(buf.len(), 6);
}

#[test]
fn oversized_prefix_rejected() {
    let mut codec = MistyCodec::with_max_frame_length(16);
    let mut buf = vec![0, 0, 0, 17];
    assert!(matches!(
        codec.decode(&mut buf),
        Err(NetError::Status(Status::MalformedFrame))
    ));
    let mut codec = MistyCodec::new();
    let mut buf = vec![0xff, 0xff, 0xff, 0xff, 1, 2];
    assert!(matches!(
        codec.decode(&mut buf),
        Err(NetError::Status(Status::MalformedFrame))
    ));
}

#[test]
fn corrupted_payload_rejected() {
    let mut codec = MistyCodec::new();
    let mut buf = vec![0, 0, 0, 3, 1, 2, 3, 0, 0];
    assert!(matches!(
        codec.decode(&mut buf),
        Err(NetError::Status(Status::MalformedFrame))
    ));
    assert_eq!(buf, vec![0, 0]);
    let mut good = encode_one(Frame::Tail(TailFrame { status: 3 }));
    good[6] = b'X';
    let mut buf = good;
    assert!(codec.decode(&mut buf).is_err());
}

#[test]
fn non_shortest_forms_rejected() {
    let mut codec = MistyCodec::new();
    // A status of 4 written as `uint 8` instead of a fixint.
    let mut buf = vec![0, 0, 0, 9, 0x81, 0xa4, b'T', b'a', b'i', b'l', 0x91, 0xcc, 0x04];
    assert!(codec.decode(&mut buf).is_err());
    // Trailing bytes inside a record.
    let mut buf = vec![0, 0, 0, 9, 0x81, 0xa4, b'T', b'a', b'i', b'l', 0x91, 0x04, 0x00];
    assert!(codec.decode(&mut buf).is_err());
}

#[test]
fn encode_over_bound_fails() {
    let mut codec = MistyCodec::with_max_frame_length(10);
    let mut out = vec![42];
    let r = codec.encode(Frame::Data(vec![0; 10]), &mut out);
    assert!(matches!(r, Err(NetError::Status(Status::MalformedFrame))));
    assert_eq!(out, vec![42]);
    assert!(codec.encode(Frame::Tail(TailFrame { status: 1 }), &mut out).is_ok());
    assert_eq!(out.len(), 1 + 4 + 8);
}

#[test]
fn default_bound() {
    assert_eq!(MistyCodec::new().max_frame_length(), 8 * 1024 * 1024);
    assert_eq!(MistyCodec::default().max_frame_length(), DEFAULT_MAX_FRAME_LENGTH);
}
