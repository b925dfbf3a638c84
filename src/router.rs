//! Registry of service handlers, and the handshake that dispatches a stream.
//!
//! The router does no I/O itself: given what the first read of a stream gave,
//! [`Router::route`] decides whether the stream is handed to a handler, answered
//! with a Tail frame, or abandoned. The caller performs that action.
use vstd::prelude::*;
use crate::error::{NetError, wire_status};
use crate::frame::{Frame, FrameModel, HeadFrame, TailFrame};
use crate::status::{Status, status_code};

verus! {

/// Discriminators are equal exactly when all 32 bytes are.
fn same_id(a: &[u8; 32], b: &[u8; 32]) -> (r: bool)
    ensures
        r == (a@ == b@),
{
    let mut i: usize = 0;
    while i < 32
        invariant
            0 <= i <= 32,
            a@.len() == 32,
            b@.len() == 32,
            a@.take(i as int) == b@.take(i as int),
        decreases 32 - i,
    {
        if a[i] != b[i] {
            return false;
        }
        assert(a@.take(i + 1) =~= a@.take(i as int).push(a@[i as int]));
        assert(b@.take(i + 1) =~= b@.take(i as int).push(b@[i as int]));
        i = i + 1;
    }
    assert(a@ =~= a@.take(32));
    assert(b@ =~= b@.take(32));
    true
}

/// The map that a list of registrations describes: later entries win.
pub open spec fn registry_map<H>(s: Seq<([u8; 32], H)>) -> Map<Seq<u8>, H>
    decreases s.len(),
{
    if s.len() == 0 {
        Map::empty()
    } else {
        registry_map(s.drop_last()).insert(s.last().0@, s.last().1)
    }
}

/// No discriminator occurs twice.
pub open spec fn unique_ids<H>(s: Seq<([u8; 32], H)>) -> bool {
    forall|i: int, j: int|
        0 <= i < s.len() && 0 <= j < s.len() && i != j ==> #[trigger] s[i].0@ != #[trigger] s[j].0@
}

proof fn lemma_registry_map<H>(s: Seq<([u8; 32], H)>)
    requires
        unique_ids(s),
    ensures
        forall|k: Seq<u8>| #[trigger]
            registry_map(s).contains_key(k) <==> exists|i: int| 0 <= i < s.len() && s[i].0@ == k,
        forall|i: int| 0 <= i < s.len() ==> #[trigger] registry_map(s)[s[i].0@] == s[i].1,
    decreases s.len(),
{
    if s.len() > 0 {
        let p = s.drop_last();
        assert(unique_ids(p)) by {
            assert forall|i: int, j: int|
                0 <= i < p.len() && 0 <= j < p.len() && i != j implies #[trigger] p[i].0@ != #[trigger] p[j].0@ by {
                assert(p[i] == s[i] && p[j] == s[j]);
            }
        }
        lemma_registry_map(p);
        assert(registry_map(s) == registry_map(p).insert(s.last().0@, s.last().1));
        assert forall|k: Seq<u8>| #[trigger]
            registry_map(s).contains_key(k) <==> exists|i: int| 0 <= i < s.len() && s[i].0@ == k by {
            if registry_map(s).contains_key(k) && k != s.last().0@ {
                let i = choose|i: int| 0 <= i < p.len() && p[i].0@ == k;
                assert(s[i] == p[i]);
            }
            if exists|i: int| 0 <= i < s.len() && s[i].0@ == k {
                let i = choose|i: int| 0 <= i < s.len() && s[i].0@ == k;
                if i < s.len() - 1 {
                    assert(p[i] == s[i]);
                }
            }
        }
        assert forall|i: int| 0 <= i < s.len() implies #[trigger] registry_map(s)[s[i].0@] == s[i].1 by {
            if i < s.len() - 1 {
                assert(p[i] == s[i]);
                assert(s[i].0@ != s[s.len() - 1].0@);
            }
        }
    }
}

/// What to do with a stream, once its first read is known.
pub enum RouteAction<'a, H> {
    /// The stream closed before any frame: fail locally with
    /// `HandshakeViolation`, and send nothing.
    Abort,
    /// Send one Tail frame with this status, close the send half, and succeed.
    Reply(Status),
    /// Hand the Head frame and both stream halves to this handler.
    Invoke(&'a H, HeadFrame),
}

/// The state a stream's handshake ends in.
pub enum Handshake {
    /// The stream closed before any frame arrived.
    Aborted,
    /// The first read failed, or gave another frame than Head.
    Rejected(Status),
    /// The first frame was a Head frame.
    Dispatched(HeadFrame),
}

/// The handshake's outcome for what the first read of a stream gave.
pub open spec fn handshake_of(first: Option<Result<Frame, NetError>>) -> Handshake {
    match first {
        None => Handshake::Aborted,
        Some(Err(e)) => Handshake::Rejected(wire_status(e)),
        Some(Ok(Frame::Head(h))) => Handshake::Dispatched(h),
        Some(Ok(_)) => Handshake::Rejected(Status::HandshakeViolation),
    }
}

/// Leaves the awaiting-head state on the first read of a stream: no frame
/// aborts; a read error is rejected with the error's wire status; a frame other
/// than Head is rejected with `HandshakeViolation`; a Head frame is dispatched.
pub fn handshake(first: Option<Result<Frame, NetError>>) -> (r: Handshake)
    ensures
        r == handshake_of(first),
{
    match first {
        None => Handshake::Aborted,
        Some(Err(e)) => Handshake::Rejected(e.wire_status()),
        Some(Ok(Frame::Head(h))) => Handshake::Dispatched(h),
        Some(Ok(_)) => Handshake::Rejected(Status::HandshakeViolation),
    }
}

/// The Tail frame that reports `status` to the peer.
pub fn tail_frame(status: Status) -> (r: Frame)
    ensures
        r@ == (FrameModel::Tail { status: status_code(status) }),
{
    Frame::Tail(TailFrame { status: status.as_u16() })
}

/// Registry from service discriminator to handler.
///
/// Built by registrations at start-up and then only read while serving.
pub struct Router<H> {
    services: Vec<([u8; 32], H)>,
}

impl<H> View for Router<H> {
    type V = Map<Seq<u8>, H>;

    closed spec fn view(&self) -> Map<Seq<u8>, H> {
        registry_map(self.services@)
    }
}

impl<H> Router<H> {
    #[verifier::type_invariant]
    closed spec fn ids_unique(self) -> bool {
        unique_ids(self.services@)
    }

    /// An empty router.
    pub fn new() -> (r: Router<H>)
        ensures
            r@ == Map::<Seq<u8>, H>::empty(),
    {
        Router { services: Vec::new() }
    }

    /// Where `service_id` is registered, if it is.
    fn position(&self, service_id: &[u8; 32]) -> (r: Option<usize>)
        ensures
            r matches Some(i) ==> i < self.services@.len() && self.services@[i as int].0@ == service_id@,
            r is None ==> forall|i: int| 0 <= i < self.services@.len() ==> self.services@[i].0@ != service_id@,
    {
        let mut i: usize = 0;
        while i < self.services.len()
            invariant
                0 <= i <= self.services@.len(),
                forall|j: int| 0 <= j < i ==> self.services@[j].0@ != service_id@,
            decreases self.services@.len() - i,
        {
            if same_id(&self.services[i].0, service_id) {
                return Some(i);
            }
            i = i + 1;
        }
        None
    }

    /// Registers `service` under `service_id`, replacing any handler that was
    /// registered under it before.
    pub fn register(&mut self, service_id: [u8; 32], service: H)
        ensures
            final(self)@ == old(self)@.insert(service_id@, service),
    {
        proof {
            use_type_invariant(&*self);
            lemma_registry_map(self.services@);
        }
        let ghost before = self.services@;
        let found = self.position(&service_id);
        let mut services: Vec<([u8; 32], H)> = Vec::new();
        core::mem::swap(&mut services, &mut self.services);
        match found {
            Some(i) => {
                proof {
                    assert(services@ == before);
                }
                services.set(i, (service_id, service));
                proof {
                    let s = services@;
                    assert(unique_ids(s)) by {
                        assert forall|a: int, b: int|
                            0 <= a < s.len() && 0 <= b < s.len() && a != b implies #[trigger] s[a].0@ != #[trigger] s[b].0@ by {
                            if a != i && b != i {
                                assert(s[a] == before[a] && s[b] == before[b]);
                            } else if a == i {
                                assert(s[b] == before[b]);
                            } else {
                                assert(s[a] == before[a]);
                            }
                        }
                    }
                    lemma_registry_map(s);
                    assert(registry_map(s) =~= registry_map(before).insert(service_id@, service)) by {
                        assert forall|k: Seq<u8>| registry_map(s).contains_key(k)
                            implies registry_map(s)[k] == registry_map(before).insert(service_id@, service)[k] by {
                            let j = choose|j: int| 0 <= j < s.len() && s[j].0@ == k;
                            if j != i {
                                assert(s[j] == before[j]);
                            }
                        }
                        assert forall|k: Seq<u8>| registry_map(before).insert(service_id@, service).contains_key(k)
                            implies #[trigger] registry_map(s).contains_key(k) by {
                            if k != service_id@ {
                                let j = choose|j: int| 0 <= j < before.len() && before[j].0@ == k;
                                assert(s[j] == before[j]);
                            } else {
                                assert(s[i as int].0@ == k);
                            }
                        }
                    }
                }
            },
            None => {
                services.push((service_id, service));
                proof {
                    let s = services@;
                    assert(s.drop_last() =~= before);
                    assert(unique_ids(s)) by {
                        assert forall|a: int, b: int|
                            0 <= a < s.len() && 0 <= b < s.len() && a != b implies #[trigger] s[a].0@ != #[trigger] s[b].0@ by {
                            if a < before.len() && b < before.len() {
                                assert(s[a] == before[a] && s[b] == before[b]);
                            } else if a < before.len() {
                                assert(s[a] == before[a]);
                            } else {
                                assert(s[b] == before[b]);
                            }
                        }
                    }
                }
            },
        }
        self.services = services;
    }

    /// The handler registered under `service_id`, if any.
    pub fn lookup(&self, service_id: &[u8; 32]) -> (r: Option<&H>)
        ensures
            r is Some <==> self@.contains_key(service_id@),
            r matches Some(h) ==> *h == self@[service_id@],
    {
        proof {
            use_type_invariant(self);
            lemma_registry_map(self.services@);
        }
        match self.position(service_id) {
            Some(i) => Some(&self.services[i].1),
            None => None,
        }
    }

    /// Decides what happens to a stream from what its first read gave.
    ///
    /// No frame: abort, sending nothing. A read error: reply with its wire
    /// status. A frame other than Head: reply `HandshakeViolation`. A Head frame
    /// whose service is registered: invoke that service's handler with the Head
    /// frame, exactly as received. Otherwise: reply `ServiceNotFound`. The
    /// method discriminator is left to the handler.
    pub fn route<'a>(&'a self, first: Option<Result<Frame, NetError>>) -> (r: RouteAction<'a, H>)
        ensures
            match handshake_of(first) {
                Handshake::Aborted => r is Abort,
                Handshake::Rejected(s) => r == RouteAction::<'a, H>::Reply(s),
                Handshake::Dispatched(h) => if self@.contains_key(h.service_id@) {
                    r matches RouteAction::Invoke(svc, head) && *svc == self@[h.service_id@] && head == h
                } else {
                    r == RouteAction::<'a, H>::Reply(Status::ServiceNotFound)
                },
            },
    {
        match handshake(first) {
            Handshake::Aborted => RouteAction::Abort,
            Handshake::Rejected(s) => RouteAction::Reply(s),
            Handshake::Dispatched(h) => match self.lookup(&h.service_id) {
                Some(svc) => RouteAction::Invoke(svc, h),
                None => RouteAction::Reply(Status::ServiceNotFound),
            },
        }
    }
}

/// Registering two handlers under one discriminator leaves only the second
/// reachable; every other registration is as it was after the first.
pub proof fn lemma_register_overwrite<H>(router: Router<H>, service_id: Seq<u8>, first: H, second: H)
    ensures
        router@.insert(service_id, first).insert(service_id, second)
            == router@.insert(service_id, second),
        router@.insert(service_id, first).insert(service_id, second)[service_id] == second,
{
    assert(router@.insert(service_id, first).insert(service_id, second)
        =~= router@.insert(service_id, second));
}

} // verus!
