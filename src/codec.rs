//! Conversion between a byte stream and a sequence of frames.
//!
//! A record is a 4-byte big-endian length followed by exactly that many bytes,
//! the encoding of one frame (see `wire`). Any failure, in the framing or in the
//! frame's encoding, is reported as `Status::MalformedFrame`.
use vstd::prelude::*;
use crate::error::NetError;
use crate::frame::{Frame, FrameModel, frame_model_wf};
use crate::status::Status;
use crate::wire::{
    be32_bytes, be32_value, decode_frame, encode_frame, frame_bytes, lemma_be32,
    lemma_parse_frame_complete, parse_frame,
};

verus! {

/// Bound on a record's length unless another is configured: 8 MiB.
pub const DEFAULT_MAX_FRAME_LENGTH: u32 = 8 * 1024 * 1024;

/// Size of the length prefix.
pub const LENGTH_PREFIX_LEN: usize = 4;

/// The record that carries a payload: its length, then the payload.
pub open spec fn record_bytes(payload: Seq<u8>) -> Seq<u8> {
    be32_bytes(payload.len() as u32) + payload
}

/// The record that carries a frame.
pub open spec fn frame_record(m: FrameModel) -> Seq<u8> {
    record_bytes(frame_bytes(m))
}

/// The length announced by the prefix of `b`.
pub open spec fn announced_len(b: Seq<u8>) -> nat
    recommends
        b.len() >= 4,
{
    be32_value(b[0], b[1], b[2], b[3]) as nat
}

/// What one decoding step makes of a buffer.
pub enum DecodeStep {
    /// No complete record yet; nothing is consumed.
    NeedMore,
    /// A frame, and the number of bytes its record took.
    Decoded(FrameModel, nat),
    /// A malformed record, and the number of bytes dropped with it.
    Malformed(nat),
}

/// One decoding step on buffer `b` with records bounded by `max` bytes.
///
/// An announced length above the bound is rejected at once, before its bytes
/// arrive; a complete record whose bytes encode no frame is dropped.
pub open spec fn decode_step(max: nat, b: Seq<u8>) -> DecodeStep {
    if b.len() < 4 {
        DecodeStep::NeedMore
    } else if announced_len(b) > max {
        DecodeStep::Malformed(0)
    } else if b.len() < 4 + announced_len(b) {
        DecodeStep::NeedMore
    } else {
        match parse_frame(b.subrange(4, 4 + announced_len(b) as int)) {
            Some(m) => DecodeStep::Decoded(m, 4 + announced_len(b)),
            None => DecodeStep::Malformed(4 + announced_len(b)),
        }
    }
}

/// Whether a frame can be sent under bound `max`.
pub open spec fn encodable(max: nat, m: FrameModel) -> bool {
    frame_model_wf(m) && frame_bytes(m).len() <= max
}

/// Length-delimited frame codec.
pub struct MistyCodec {
    max_frame_length: u32,
}

impl MistyCodec {
    /// The bound on a record's length, in bytes.
    pub closed spec fn max_len(&self) -> nat {
        self.max_frame_length as nat
    }

    /// A codec that bounds records by `DEFAULT_MAX_FRAME_LENGTH`.
    pub fn new() -> (r: MistyCodec)
        ensures
            r.max_len() == DEFAULT_MAX_FRAME_LENGTH,
    {
        MistyCodec { max_frame_length: DEFAULT_MAX_FRAME_LENGTH }
    }

    /// A codec that bounds records by `max` bytes.
    pub fn with_max_frame_length(max: u32) -> (r: MistyCodec)
        ensures
            r.max_len() == max,
    {
        MistyCodec { max_frame_length: max }
    }

    /// The bound on a record's length, in bytes.
    pub fn max_frame_length(&self) -> (r: u32)
        ensures
            r == self.max_len(),
    {
        self.max_frame_length
    }

    /// Takes one frame off the front of `src`, if a whole record is there.
    ///
    /// Returns `Ok(None)`, consuming nothing, while the record is incomplete;
    /// `Ok(Some(frame))` once it is complete and well formed; and
    /// `Err(NetError::Status(MalformedFrame))` for a length above the bound or a
    /// payload that encodes no frame.
    pub fn decode(&mut self, src: &mut Vec<u8>) -> (r: Result<Option<Frame>, NetError>)
        ensures
            *final(self) == *old(self),
            match decode_step(old(self).max_len(), old(src)@) {
                DecodeStep::NeedMore => r matches Ok(None) && final(src)@ == old(src)@,
                DecodeStep::Decoded(m, k) => r matches Ok(Some(f)) && f@ == m
                    && final(src)@ == old(src)@.skip(k as int),
                DecodeStep::Malformed(k) => r matches Err(NetError::Status(Status::MalformedFrame))
                    && final(src)@ == old(src)@.skip(k as int),
            },
    {
        if src.len() < LENGTH_PREFIX_LEN {
            return Ok(None);
        }
        let n: u32 = ((src[0] as u32) << 24u32) | ((src[1] as u32) << 16u32)
            | ((src[2] as u32) << 8u32) | (src[3] as u32);
        if n > self.max_frame_length {
            assert(src@.skip(0) =~= src@);
            return Err(NetError::Status(Status::MalformedFrame));
        }
        if src.len() - LENGTH_PREFIX_LEN < n as usize {
            return Ok(None);
        }
        let total: usize = LENGTH_PREFIX_LEN + n as usize;
        let mut record = src.split_off(total);
        core::mem::swap(src, &mut record);
        let decoded = decode_frame(&record.as_slice()[4..total]);
        assert(record@.subrange(4, total as int) == old(src)@.subrange(4, total as int));
        match decoded {
            Some(f) => Ok(Some(f)),
            None => Err(NetError::Status(Status::MalformedFrame)),
        }
    }

    /// Appends the record of `item` to `dst`.
    ///
    /// Fails with `NetError::Status(MalformedFrame)`, leaving `dst` as it was,
    /// when the frame's encoding is longer than the bound.
    pub fn encode(&mut self, item: Frame, dst: &mut Vec<u8>) -> (r: Result<(), NetError>)
        ensures
            *final(self) == *old(self),
            r is Ok <==> encodable(old(self).max_len(), item@),
            r is Ok ==> final(dst)@ == old(dst)@ + frame_record(item@),
            r is Err ==> (r matches Err(NetError::Status(Status::MalformedFrame))
                && final(dst)@ == old(dst)@),
    {
        let mut payload: Vec<u8> = Vec::new();
        let ok = encode_frame(&item, &mut payload);
        assert(payload@ =~= Seq::<u8>::empty() + payload@);
        if !ok || payload.len() > self.max_frame_length as usize {
            return Err(NetError::Status(Status::MalformedFrame));
        }
        let n = payload.len() as u32;
        let ghost start = dst@;
        dst.push((n >> 24u32) as u8);
        dst.push((n >> 16u32) as u8);
        dst.push((n >> 8u32) as u8);
        dst.push(n as u8);
        dst.extend_from_slice(payload.as_slice());
        assert(dst@ =~= start + frame_record(item@));
        Ok(())
    }
}

impl Default for MistyCodec {
    fn default() -> (r: MistyCodec)
        ensures
            r.max_len() == DEFAULT_MAX_FRAME_LENGTH,
    {
        MistyCodec::new()
    }
}

/// Frames decoded from `b` by repeated steps: the frames, the bytes left, and
/// whether decoding stopped on a malformed record rather than for want of bytes.
pub open spec fn decode_all(max: nat, b: Seq<u8>) -> (Seq<FrameModel>, Seq<u8>, bool)
    decreases b.len(),
{
    match decode_step(max, b) {
        DecodeStep::NeedMore => (Seq::empty(), b, false),
        DecodeStep::Malformed(_) => (Seq::empty(), b, true),
        DecodeStep::Decoded(m, k) => if 0 < k <= b.len() {
            let r = decode_all(max, b.skip(k as int));
            (seq![m] + r.0, r.1, r.2)
        } else {
            (Seq::empty(), b, true)
        },
    }
}

/// All chunks, joined in order.
pub open spec fn join_chunks(chunks: Seq<Seq<u8>>) -> Seq<u8>
    decreases chunks.len(),
{
    if chunks.len() == 0 {
        Seq::empty()
    } else {
        join_chunks(chunks.drop_last()) + chunks.last()
    }
}

/// Feeding chunks one at a time: after each chunk arrives, frames are decoded
/// from the buffer until more bytes are needed. Gives the frames, the buffer,
/// and whether a malformed record stopped the stream.
pub open spec fn feed_chunks(max: nat, chunks: Seq<Seq<u8>>) -> (Seq<FrameModel>, Seq<u8>, bool)
    decreases chunks.len(),
{
    if chunks.len() == 0 {
        (Seq::empty(), Seq::empty(), false)
    } else {
        let prev = feed_chunks(max, chunks.drop_last());
        if prev.2 {
            (prev.0, prev.1 + chunks.last(), true)
        } else {
            let r = decode_all(max, prev.1 + chunks.last());
            (prev.0 + r.0, r.1, r.2)
        }
    }
}

/// Decoding the record of any sendable frame, whatever follows it, gives the
/// frame back and consumes exactly its record.
pub proof fn lemma_codec_round_trip(codec: MistyCodec, m: FrameModel, rest: Seq<u8>)
    requires
        encodable(codec.max_len(), m),
    ensures
        decode_step(codec.max_len(), frame_record(m) + rest)
            == DecodeStep::Decoded(m, frame_record(m).len()),
{
    let p = frame_bytes(m);
    let b = frame_record(m) + rest;
    let x = p.len() as u32;
    lemma_be32(x, 0, 0, 0, 0);
    assert(b[0] == be32_bytes(x)[0] && b[1] == be32_bytes(x)[1]);
    assert(b[2] == be32_bytes(x)[2] && b[3] == be32_bytes(x)[3]);
    assert(announced_len(b) == p.len());
    assert(b.subrange(4, 4 + p.len() as int) =~= p);
    lemma_parse_frame_complete(m);
}

/// A step that did not ask for more bytes decides the same way however many
/// bytes arrive after them.
pub proof fn lemma_decode_step_extension(max: nat, b: Seq<u8>, e: Seq<u8>)
    ensures
        decode_step(max, b) is NeedMore || decode_step(max, b + e) == decode_step(max, b),
        decode_step(max, b) matches DecodeStep::Decoded(_, k) ==> 4 <= k <= b.len(),
        decode_step(max, b) matches DecodeStep::Malformed(k) ==> k <= b.len(),
{
    if !(decode_step(max, b) is NeedMore) {
        let be = b + e;
        assert(be[0] == b[0] && be[1] == b[1] && be[2] == b[2] && be[3] == b[3]);
        if announced_len(b) <= max {
            assert(be.subrange(4, 4 + announced_len(b) as int) =~= b.subrange(4, 4 + announced_len(b) as int));
        }
    }
}

/// Decoding a buffer that grows: what was decoded stays, and decoding goes on
/// from what was left.
pub proof fn lemma_decode_all_extension(max: nat, b: Seq<u8>, e: Seq<u8>)
    ensures
        ({
            let (fs, r, failed) = decode_all(max, b);
            let x = decode_all(max, r + e);
            if failed {
                decode_all(max, b + e) == (fs, r + e, true)
            } else {
                decode_all(max, b + e) == (fs + x.0, x.1, x.2)
            }
        }),
    decreases b.len(),
{
    lemma_decode_step_extension(max, b, e);
    match decode_step(max, b) {
        DecodeStep::NeedMore => {
            assert(Seq::<FrameModel>::empty() + decode_all(max, b + e).0 =~= decode_all(max, b + e).0);
        },
        DecodeStep::Malformed(_) => {},
        DecodeStep::Decoded(m, k) => {
            let b2 = b.skip(k as int);
            assert((b + e).skip(k as int) =~= b2 + e);
            lemma_decode_all_extension(max, b2, e);
            let (fs2, r2, failed2) = decode_all(max, b2);
            let x = decode_all(max, r2 + e);
            if !failed2 {
                assert(seq![m] + (fs2 + x.0) =~= (seq![m] + fs2) + x.0);
            }
        },
    }
}

/// Feeding a stream in chunks, split anywhere, decodes the same frames, leaves
/// the same bytes and fails the same way as decoding it whole.
pub proof fn lemma_chunked_decoding(codec: MistyCodec, chunks: Seq<Seq<u8>>)
    ensures
        feed_chunks(codec.max_len(), chunks) == decode_all(codec.max_len(), join_chunks(chunks)),
    decreases chunks.len(),
{
    let max = codec.max_len();
    if chunks.len() > 0 {
        lemma_chunked_decoding(codec, chunks.drop_last());
        lemma_decode_all_extension(max, join_chunks(chunks.drop_last()), chunks.last());
    } else {
        assert(decode_step(max, Seq::<u8>::empty()) is NeedMore);
    }
}

/// Malformed input is never a fault: a truncated length prefix asks for more
/// bytes, an announced length above the bound is rejected before its bytes
/// arrive, and a complete record whose payload encodes no frame is rejected and
/// dropped.
pub proof fn lemma_malformed_input(codec: MistyCodec, b: Seq<u8>)
    ensures
        b.len() < 4 ==> decode_step(codec.max_len(), b) is NeedMore,
        b.len() >= 4 && announced_len(b) > codec.max_len() ==> decode_step(codec.max_len(), b)
            == DecodeStep::Malformed(0),
        b.len() >= 4 && announced_len(b) <= codec.max_len() && b.len() >= 4 + announced_len(b)
            && parse_frame(b.subrange(4, 4 + announced_len(b) as int)) is None
            ==> decode_step(codec.max_len(), b) == DecodeStep::Malformed(4 + announced_len(b)),
{
}

} // verus!
