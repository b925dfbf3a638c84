use misty::Status;

#[test]
fn canonical_codes() {
    let all = [
        (Status::Success, 0u16),
        (Status::ProtocolFailure, 1),
        (Status::HandshakeViolation, 2),
        (Status::MalformedFrame, 3),
        (Status::ServiceNotFound, 4),
        (Status::MethodNotFound, 5),
        (Status::InvalidDataFrame, 6),
        (Status::InternalServerError, 7),
        (Status::Custom(1000), 1000),
    ];
    for (status, code) in all {
        assert_eq!(status.as_u16(), code);
        assert_eq!(u16::from(status), code);
        assert_eq!(Status::from_u16(code), status);
    }
}

#[test]
fn reserved_custom_codes_decode_as_named() {
    assert_eq!(Status::Custom(3).as_u16(), 3);
    assert_eq!(Status::from_u16(3), Status::MalformedFrame);
    assert_eq!(Status::from_u16(8), Status::Custom(8));
}
