//! The three wire message shapes exchanged over a stream.
use vstd::prelude::*;

verus! {

/// First frame of every stream: the routing key of the call.
///
/// It is sent exactly once, to open the stream.
#[derive(Debug, Clone, Copy, PartialEq, Eq)]
pub struct HeadFrame {
    /// Discriminator of the service to be called.
    pub service_id: [u8; 32],
    /// Discriminator of the method to be called.
    pub method_id: [u8; 32],
}

/// Last frame of every stream: the outcome of the call.
///
/// Once a peer has received it, the stream may be closed.
#[derive(Debug, Clone, Copy, PartialEq, Eq, Structural)]
pub struct TailFrame {
    /// Numeric code of the outcome (see `Status::as_u16`).
    pub status: u16,
}

/// One protocol message. A stream carries `Head, Data*, Tail`.
#[derive(Debug, Clone, PartialEq, Eq)]
pub enum Frame {
    /// Routing key; the first frame of a stream.
    Head(HeadFrame),
    /// Application payload; only between Head and Tail.
    Data(Vec<u8>),
    /// Terminal status; the last frame of a stream.
    Tail(TailFrame),
}

/// Mathematical value of a frame: discriminators and payloads as sequences.
pub enum FrameModel {
    Head { service_id: Seq<u8>, method_id: Seq<u8> },
    Data { payload: Seq<u8> },
    Tail { status: u16 },
}

impl View for Frame {
    type V = FrameModel;

    open spec fn view(&self) -> FrameModel {
        match self {
            Frame::Head(h) => FrameModel::Head { service_id: h.service_id@, method_id: h.method_id@ },
            Frame::Data(p) => FrameModel::Data { payload: p@ },
            Frame::Tail(t) => FrameModel::Tail { status: t.status },
        }
    }
}

/// Largest payload that a Data frame can carry on the wire.
pub const MAX_DATA_PAYLOAD: u64 = 0xffff_ffff;

/// A frame model that some frame can have: discriminators of 32 bytes, and a
/// payload whose length fits the 32-bit binary header.
pub open spec fn frame_model_wf(m: FrameModel) -> bool {
    match m {
        FrameModel::Head { service_id, method_id } => service_id.len() == 32 && method_id.len() == 32,
        FrameModel::Data { payload } => payload.len() <= MAX_DATA_PAYLOAD,
        FrameModel::Tail { .. } => true,
    }
}

} // verus!
