use misty::{handshake, tail_frame, Frame, Handshake, HeadFrame, NetError, RouteAction, Router, Status, TailFrame};

fn head(service: u8, method: u8) -> HeadFrame {
    HeadFrame { service_id: [service; 32], method_id: [method; 32] }
}

#[test]
fn register_overwrites() {
    let mut router: Router<&'static str> = Router::new();
    router.register([1; 32], "first");
    router.register([2; 32], "other");
    router.register([1; 32], "second");
    assert_eq!(router.lookup(&[1; 32]), Some(&"second"));
    assert_eq!(router.lookup(&[2; 32]), Some(&"other"));
    assert_eq!(router.lookup(&[3; 32]), None);
}

#[test]
fn wrong_first_frame_replies_handshake_violation() {
    let router: Router<u32> = Router::new();
    match router.route(Some(Ok(Frame::Data(vec![1, 2])))) {
        RouteAction::Reply(status) => {
            assert_eq!(status, Status::HandshakeViolation);
            assert_eq!(tail_frame(status), Frame::Tail(TailFrame { status: 2 }));
        }
        _ => panic!("expected a reply"),
    }
    match router.route(Some(Ok(Frame::Tail(TailFrame { status: 0 })))) {
        RouteAction::Reply(status) => assert_eq!(status, Status::HandshakeViolation),
        _ => panic!("expected a reply"),
    }
}

#[test]
fn empty_stream_aborts() {
    let mut router: Router<u32> = Router::new();
    router.register([1; 32], 7);
    assert!(matches!(router.route(None), RouteAction::Abort));
    assert!(matches!(handshake(None), Handshake::Aborted));
}

#[test]
fn read_errors_map_to_wire_status() {
    let router: Router<u32> = Router::new();
    let io = std::io::Error::new(std::io::ErrorKind::Other, "reset");
    match router.route(Some(Err(NetError::StdIo(io)))) {
        RouteAction::Reply(status) => assert_eq!(status, Status::InternalServerError),
        _ => panic!("expected a reply"),
    }
    match router.route(Some(Err(NetError::Status(Status::MalformedFrame)))) {
        RouteAction::Reply(status) => assert_eq!(status, Status::MalformedFrame),
        _ => panic!("expected a reply"),
    }
}

#[test]
fn unknown_service_replies_not_found() {
    let mut router: Router<u32> = Router::new();
    router.register([1; 32], 7);
    match router.route(Some(Ok(Frame::Head(head(2, 0))))) {
        RouteAction::Reply(status) => {
            assert_eq!(status, Status::ServiceNotFound);
            assert_eq!(tail_frame(status), Frame::Tail(TailFrame { status: 4 }));
        }
        _ => panic!("expected a reply"),
    }
}

#[test]
fn known_service_is_invoked_with_exact_head() {
    let mut router: Router<u32> = Router::new();
    router.register([1; 32], 7);
    let sent = head(1, 42);
    match router.route(Some(Ok(Frame::Head(sent)))) {
        RouteAction::Invoke(handler, received) => {
            assert_eq!(*handler, 7);
            assert_eq!(received, sent);
        }
        _ => panic!("expected an invocation"),
    }
}

#[test]
fn two_streams_reach_their_own_handlers() {
    let mut router: Router<&'static str> = Router::new();
    router.register([1; 32], "alpha");
    router.register([2; 32], "beta");
    let a = router.route(Some(Ok(Frame::Head(head(1, 5)))));
    let b = router.route(Some(Ok(Frame::Head(head(2, 6)))));
    match (a, b) {
        (RouteAction::Invoke(ha, ra), RouteAction::Invoke(hb, rb)) => {
            assert_eq!((*ha, ra), ("alpha", head(1, 5)));
            assert_eq!((*hb, rb), ("beta", head(2, 6)));
        }
        _ => panic!("expected two invocations"),
    }
}
