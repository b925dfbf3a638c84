//! Binary encoding of a single frame: the payload of one length-delimited record.
//!
//! The encoding is MessagePack as a tagged union: a one-entry map from the
//! variant's name to its fields, with structs written as arrays.
//! - `Head`: `{"Head": [[32 x uint], [32 x uint]]}`
//! - `Data`: `{"Data": bin}`
//! - `Tail`: `{"Tail": [uint]}`
//!
//! Every integer, length and header takes its shortest form, so each frame has
//! exactly one encoding, and decoding accepts exactly those encodings.
use vstd::prelude::*;
use crate::frame::{Frame, FrameModel, HeadFrame, TailFrame, frame_model_wf, MAX_DATA_PAYLOAD};

verus! {

/// Big-endian bytes of a 16-bit value.
pub open spec fn be16_bytes(x: u16) -> Seq<u8> {
    seq![(x >> 8u16) as u8, x as u8]
}

/// The 16-bit value of two big-endian bytes.
pub open spec fn be16_value(a: u8, b: u8) -> u16 {
    ((a as u16) << 8u16) | (b as u16)
}

/// Big-endian bytes of a 32-bit value.
pub open spec fn be32_bytes(x: u32) -> Seq<u8> {
    seq![(x >> 24u32) as u8, (x >> 16u32) as u8, (x >> 8u32) as u8, x as u8]
}

/// The 32-bit value of four big-endian bytes.
pub open spec fn be32_value(a: u8, b: u8, c: u8, d: u8) -> u32 {
    ((a as u32) << 24u32) | ((b as u32) << 16u32) | ((c as u32) << 8u32) | (d as u32)
}

pub proof fn lemma_be16(x: u16, a: u8, b: u8)
    ensures
        be16_value((x >> 8u16) as u8, x as u8) == x,
        (be16_value(a, b) >> 8u16) as u8 == a,
        be16_value(a, b) as u8 == b,
        (be16_value(a, b) < 0x100) <==> (a == 0),
{
    assert((((((x >> 8u16) as u8) as u16) << 8u16) | ((x as u8) as u16)) == x) by (bit_vector);
    assert((((((a as u16) << 8u16) | (b as u16)) >> 8u16) as u8) == a) by (bit_vector);
    assert(((((a as u16) << 8u16) | (b as u16)) as u8) == b) by (bit_vector);
    assert(((((a as u16) << 8u16) | (b as u16)) < 0x100u16) <==> (a == 0u8)) by (bit_vector);
}

pub proof fn lemma_be32(x: u32, a: u8, b: u8, c: u8, d: u8)
    ensures
        be32_value((x >> 24u32) as u8, (x >> 16u32) as u8, (x >> 8u32) as u8, x as u8) == x,
        (be32_value(a, b, c, d) >> 24u32) as u8 == a,
        (be32_value(a, b, c, d) >> 16u32) as u8 == b,
        (be32_value(a, b, c, d) >> 8u32) as u8 == c,
        be32_value(a, b, c, d) as u8 == d,
        (be32_value(a, b, c, d) < 0x10000) <==> (a == 0 && b == 0),
{
    assert(((((x >> 24u32) as u8) as u32) << 24u32 | (((x >> 16u32) as u8) as u32) << 16u32
        | (((x >> 8u32) as u8) as u32) << 8u32 | ((x as u8) as u32)) == x) by (bit_vector);
    assert(((((a as u32) << 24u32) | ((b as u32) << 16u32) | ((c as u32) << 8u32) | (d as u32))
        >> 24u32) as u8 == a) by (bit_vector);
    assert(((((a as u32) << 24u32) | ((b as u32) << 16u32) | ((c as u32) << 8u32) | (d as u32))
        >> 16u32) as u8 == b) by (bit_vector);
    assert(((((a as u32) << 24u32) | ((b as u32) << 16u32) | ((c as u32) << 8u32) | (d as u32))
        >> 8u32) as u8 == c) by (bit_vector);
    assert(((((a as u32) << 24u32) | ((b as u32) << 16u32) | ((c as u32) << 8u32) | (d as u32)))
        as u8 == d) by (bit_vector);
    assert(((((a as u32) << 24u32) | ((b as u32) << 16u32) | ((c as u32) << 8u32) | (d as u32))
        < 0x10000u32) <==> (a == 0u8 && b == 0u8)) by (bit_vector);
}

/// Map-of-one header and variant name of each variant.
pub open spec fn tag_head() -> Seq<u8> {
    seq![0x81u8, 0xa4u8, 0x48u8, 0x65u8, 0x61u8, 0x64u8]
}

pub open spec fn tag_data() -> Seq<u8> {
    seq![0x81u8, 0xa4u8, 0x44u8, 0x61u8, 0x74u8, 0x61u8]
}

pub open spec fn tag_tail() -> Seq<u8> {
    seq![0x81u8, 0xa4u8, 0x54u8, 0x61u8, 0x69u8, 0x6cu8]
}

/// One element of a discriminator array: a positive fixint or a `uint 8`.
pub open spec fn byte_elem_bytes(x: u8) -> Seq<u8> {
    if x < 0x80 {
        seq![x]
    } else {
        seq![0xccu8, x]
    }
}

/// The elements of a discriminator array, in order.
pub open spec fn byte_elems_bytes(s: Seq<u8>) -> Seq<u8>
    decreases s.len(),
{
    if s.len() == 0 {
        Seq::empty()
    } else {
        byte_elems_bytes(s.drop_last()) + byte_elem_bytes(s.last())
    }
}

/// A 32-byte discriminator: an `array 16` header of length 32, then its elements.
pub open spec fn id_bytes(s: Seq<u8>) -> Seq<u8> {
    seq![0xdcu8, 0x00u8, 0x20u8] + byte_elems_bytes(s)
}

/// A status code in its shortest unsigned form.
pub open spec fn code_bytes(c: u16) -> Seq<u8> {
    if c < 0x80 {
        seq![c as u8]
    } else if c < 0x100 {
        seq![0xccu8, c as u8]
    } else {
        seq![0xcdu8] + be16_bytes(c)
    }
}

/// The shortest `bin` header for a payload of `n` bytes.
pub open spec fn bin_header(n: nat) -> Seq<u8> {
    if n < 0x100 {
        seq![0xc4u8, n as u8]
    } else if n < 0x10000 {
        seq![0xc5u8] + be16_bytes(n as u16)
    } else {
        seq![0xc6u8] + be32_bytes(n as u32)
    }
}

/// The encoding of a frame.
pub open spec fn frame_bytes(m: FrameModel) -> Seq<u8> {
    match m {
        FrameModel::Head { service_id, method_id } =>
            tag_head().push(0x92u8) + id_bytes(service_id) + id_bytes(method_id),
        FrameModel::Data { payload } => tag_data() + bin_header(payload.len()) + payload,
        FrameModel::Tail { status } => tag_tail().push(0x91u8) + code_bytes(status),
    }
}

/// Reads one discriminator element at `i`: its value and the position after it.
pub open spec fn parse_byte_elem(b: Seq<u8>, i: int) -> Option<(u8, int)> {
    if 0 <= i < b.len() && b[i] < 0x80 {
        Some((b[i], i + 1))
    } else if 0 <= i && i + 1 < b.len() && b[i] == 0xcc && b[i + 1] >= 0x80 {
        Some((b[i + 1], i + 2))
    } else {
        None
    }
}

/// Reads `n` discriminator elements from `i`.
pub open spec fn parse_byte_elems(b: Seq<u8>, i: int, n: nat) -> Option<(Seq<u8>, int)>
    decreases n,
{
    if n == 0 {
        if 0 <= i <= b.len() {
            Some((Seq::empty(), i))
        } else {
            None
        }
    } else {
        match parse_byte_elems(b, i, (n - 1) as nat) {
            Some((s, j)) => match parse_byte_elem(b, j) {
                Some((x, k)) => Some((s.push(x), k)),
                None => None,
            },
            None => None,
        }
    }
}

/// Reads a 32-byte discriminator at `i`.
pub open spec fn parse_id(b: Seq<u8>, i: int) -> Option<(Seq<u8>, int)> {
    if 0 <= i && i + 3 <= b.len() && b[i] == 0xdc && b[i + 1] == 0 && b[i + 2] == 0x20 {
        parse_byte_elems(b, i + 3, 32)
    } else {
        None
    }
}

/// Reads a status code at `i`.
pub open spec fn parse_code(b: Seq<u8>, i: int) -> Option<(u16, int)> {
    if 0 <= i < b.len() && b[i] < 0x80 {
        Some((b[i] as u16, i + 1))
    } else if 0 <= i && i + 1 < b.len() && b[i] == 0xcc && b[i + 1] >= 0x80 {
        Some((b[i + 1] as u16, i + 2))
    } else if 0 <= i && i + 2 < b.len() && b[i] == 0xcd && b[i + 1] != 0 {
        Some((be16_value(b[i + 1], b[i + 2]), i + 3))
    } else {
        None
    }
}

/// Reads a `bin` header at `i`: the payload length and where the payload starts.
pub open spec fn parse_bin_header(b: Seq<u8>, i: int) -> Option<(nat, int)> {
    if 0 <= i && i + 1 < b.len() && b[i] == 0xc4 {
        Some((b[i + 1] as nat, i + 2))
    } else if 0 <= i && i + 2 < b.len() && b[i] == 0xc5 && b[i + 1] != 0 {
        Some((be16_value(b[i + 1], b[i + 2]) as nat, i + 3))
    } else if 0 <= i && i + 4 < b.len() && b[i] == 0xc6 && (b[i + 1] != 0 || b[i + 2] != 0) {
        Some((be32_value(b[i + 1], b[i + 2], b[i + 3], b[i + 4]) as nat, i + 5))
    } else {
        None
    }
}

/// The frame that a whole record encodes, if any.
pub open spec fn parse_frame(b: Seq<u8>) -> Option<FrameModel> {
    if b.len() < 6 {
        None
    } else if b.subrange(0, 6) == tag_head() {
        if b.len() > 6 && b[6] == 0x92 {
            match parse_id(b, 7) {
                Some((s, j)) => match parse_id(b, j) {
                    Some((m, k)) => if k == b.len() {
                        Some(FrameModel::Head { service_id: s, method_id: m })
                    } else {
                        None
                    },
                    None => None,
                },
                None => None,
            }
        } else {
            None
        }
    } else if b.subrange(0, 6) == tag_data() {
        match parse_bin_header(b, 6) {
            Some((n, j)) => if j + n == b.len() {
                Some(FrameModel::Data { payload: b.subrange(j, b.len() as int) })
            } else {
                None
            },
            None => None,
        }
    } else if b.subrange(0, 6) == tag_tail() {
        if b.len() > 6 && b[6] == 0x91 {
            match parse_code(b, 7) {
                Some((c, j)) => if j == b.len() {
                    Some(FrameModel::Tail { status: c })
                } else {
                    None
                },
                None => None,
            }
        } else {
            None
        }
    } else {
        None
    }
}

proof fn lemma_byte_elems_complete(b: Seq<u8>, i: int, s: Seq<u8>)
    requires
        0 <= i,
        i + byte_elems_bytes(s).len() <= b.len(),
        b.subrange(i, i + byte_elems_bytes(s).len()) == byte_elems_bytes(s),
    ensures
        parse_byte_elems(b, i, s.len()) == Some((s, i + byte_elems_bytes(s).len())),
    decreases s.len(),
{
    if s.len() > 0 {
        let s0 = s.drop_last();
        let e0 = byte_elems_bytes(s0);
        let e = byte_elems_bytes(s);
        assert(e == e0 + byte_elem_bytes(s.last()));
        assert(b.subrange(i, i + e0.len()) =~= e.subrange(0, e0.len() as int));
        assert(e.subrange(0, e0.len() as int) =~= e0);
        lemma_byte_elems_complete(b, i, s0);
        let j = i + e0.len();
        assert(b[j] == e[e0.len() as int]);
        if s.last() >= 0x80 {
            assert(b[j + 1] == e[e0.len() as int + 1]);
        }
        assert(s0.push(s.last()) =~= s);
    }
}

proof fn lemma_byte_elems_sound(b: Seq<u8>, i: int, n: nat)
    ensures
        parse_byte_elems(b, i, n) matches Some((s, j)) ==> {
            &&& s.len() == n
            &&& 0 <= i <= j <= b.len()
            &&& b.subrange(i, j) == byte_elems_bytes(s)
        },
    decreases n,
{
    if n > 0 {
        lemma_byte_elems_sound(b, i, (n - 1) as nat);
        if let Some((s0, j0)) = parse_byte_elems(b, i, (n - 1) as nat) {
            if let Some((x, k)) = parse_byte_elem(b, j0) {
                let s = s0.push(x);
                assert(s.drop_last() =~= s0);
                assert(b.subrange(i, k) =~= b.subrange(i, j0) + b.subrange(j0, k));
                assert(b.subrange(j0, k) =~= byte_elem_bytes(x));
            }
        }
    } else {
        if 0 <= i <= b.len() {
            assert(b.subrange(i, i) =~= Seq::<u8>::empty());
        }
    }
}

proof fn lemma_id_complete(b: Seq<u8>, i: int, s: Seq<u8>)
    requires
        s.len() == 32,
        0 <= i,
        i + id_bytes(s).len() <= b.len(),
        b.subrange(i, i + id_bytes(s).len()) == id_bytes(s),
    ensures
        parse_id(b, i) == Some((s, i + id_bytes(s).len())),
{
    let e = id_bytes(s);
    assert(b[i] == e[0] && b[i + 1] == e[1] && b[i + 2] == e[2]);
    assert(b.subrange(i + 3, i + e.len()) =~= e.subrange(3, e.len() as int));
    assert(e.subrange(3, e.len() as int) =~= byte_elems_bytes(s));
    lemma_byte_elems_complete(b, i + 3, s);
}

proof fn lemma_id_sound(b: Seq<u8>, i: int)
    ensures
        parse_id(b, i) matches Some((s, j)) ==> {
            &&& s.len() == 32
            &&& 0 <= i <= j <= b.len()
            &&& b.subrange(i, j) == id_bytes(s)
        },
{
    lemma_byte_elems_sound(b, i + 3, 32);
    if let Some((s, j)) = parse_id(b, i) {
        assert(b.subrange(i, j) =~= b.subrange(i, i + 3) + b.subrange(i + 3, j));
        assert(b.subrange(i, i + 3) =~= seq![0xdcu8, 0x00u8, 0x20u8]);
    }
}

/// Every well-formed frame is read back from its encoding.
pub proof fn lemma_parse_frame_complete(m: FrameModel)
    requires
        frame_model_wf(m),
    ensures
        parse_frame(frame_bytes(m)) == Some(m),
{
    let b = frame_bytes(m);
    match m {
        FrameModel::Head { service_id, method_id } => {
            let p = tag_head().push(0x92u8);
            let e1 = id_bytes(service_id);
            let e2 = id_bytes(method_id);
            let l1 = e1.len() as int;
            let l2 = e2.len() as int;
            assert(b.subrange(0, 6) =~= tag_head());
            assert(b[6] == 0x92u8);
            assert(b.subrange(7, 7 + l1) =~= e1);
            lemma_id_complete(b, 7, service_id);
            assert(b.subrange(7 + l1, 7 + l1 + l2) =~= e2);
            lemma_id_complete(b, 7 + l1, method_id);
            assert(b.len() == 7 + l1 + l2);
            assert(parse_id(b, 7) == Some((service_id, 7 + l1)));
            assert(parse_id(b, 7 + l1) == Some((method_id, 7 + l1 + l2)));
            assert(b.len() > 6 && b[6] == 0x92);
            assert(b.subrange(0, 6) == tag_head());
        },
        FrameModel::Data { payload } => {
            let n = payload.len();
            let h = bin_header(n);
            assert(b.subrange(0, 6) =~= tag_data());
            assert(b.subrange(0, 6) != tag_head()) by {
                assert(b.subrange(0, 6)[2] != tag_head()[2]);
            }
            assert(b[6] == h[0]);
            if n < 0x100 {
                assert(b[7] == h[1]);
            } else if n < 0x10000 {
                assert(b[7] == h[1] && b[8] == h[2]);
                lemma_be16(n as u16, h[1], h[2]);
            } else {
                assert(b[7] == h[1] && b[8] == h[2] && b[9] == h[3] && b[10] == h[4]);
                lemma_be32(n as u32, h[1], h[2], h[3], h[4]);
            }
            assert(parse_bin_header(b, 6) == Some((n, 6 + h.len() as int)));
            assert(b.subrange(6 + h.len() as int, b.len() as int) =~= payload);
        },
        FrameModel::Tail { status } => {
            assert(b.subrange(0, 6) =~= tag_tail());
            assert(b.subrange(0, 6) != tag_head()) by {
                assert(b.subrange(0, 6)[2] != tag_head()[2]);
            }
            assert(b.subrange(0, 6) != tag_data()) by {
                assert(b.subrange(0, 6)[2] != tag_data()[2]);
            }
            assert(b[6] == 0x91u8);
            let e = code_bytes(status);
            assert(b[7] == e[0]);
            if status >= 0x80 {
                assert(b[8] == e[1]);
            }
            if status >= 0x100 {
                assert(b[9] == e[2]);
                lemma_be16(status, 0, 0);
                lemma_be16(status, e[1], e[2]);
            }
        },
    }
}

/// Whatever is read from a record is a well-formed frame whose encoding is
/// exactly that record.
pub proof fn lemma_parse_frame_sound(b: Seq<u8>)
    ensures
        parse_frame(b) matches Some(m) ==> frame_model_wf(m) && frame_bytes(m) == b,
{
    if let Some(m) = parse_frame(b) {
        match m {
            FrameModel::Head { service_id, method_id } => {
                lemma_id_sound(b, 7);
                let (s, j) = parse_id(b, 7).unwrap();
                lemma_id_sound(b, j);
                assert(b =~= b.subrange(0, 6).push(b[6]) + b.subrange(7, j) + b.subrange(j, b.len() as int));
            },
            FrameModel::Data { payload } => {
                let (n, j) = parse_bin_header(b, 6).unwrap();
                if b[6] == 0xc4u8 {
                    assert(b.subrange(6, j) =~= bin_header(n));
                } else if b[6] == 0xc5u8 {
                    lemma_be16(0, b[7], b[8]);
                    assert(b.subrange(6, j) =~= bin_header(n));
                } else {
                    lemma_be32(0, b[7], b[8], b[9], b[10]);
                    assert(b.subrange(6, j) =~= bin_header(n));
                }
                assert(b =~= b.subrange(0, 6) + b.subrange(6, j) + b.subrange(j, b.len() as int));
            },
            FrameModel::Tail { status } => {
                let (c, j) = parse_code(b, 7).unwrap();
                if b[7] == 0xcdu8 {
                    lemma_be16(0, b[8], b[9]);
                }
                assert(b.subrange(7, j) =~= code_bytes(c));
                assert(b =~= b.subrange(0, 6).push(b[6]) + b.subrange(7, j));
            },
        }
    }
}

fn push_byte_elem(out: &mut Vec<u8>, x: u8)
    ensures
        final(out)@ == old(out)@ + byte_elem_bytes(x),
{
    if x >= 0x80 {
        out.push(0xcc);
    }
    out.push(x);
    assert(final(out)@ =~= old(out)@ + byte_elem_bytes(x));
}

fn push_id(out: &mut Vec<u8>, id: &[u8; 32])
    ensures
        final(out)@ == old(out)@ + id_bytes(id@),
{
    let ghost start = out@;
    out.push(0xdc);
    out.push(0x00);
    out.push(0x20);
    let mut i: usize = 0;
    while i < 32
        invariant
            0 <= i <= 32,
            id@.len() == 32,
            out@ == start + seq![0xdcu8, 0x00u8, 0x20u8] + byte_elems_bytes(id@.take(i as int)),
        decreases 32 - i,
    {
        push_byte_elem(out, id[i]);
        assert(id@.take(i + 1).drop_last() =~= id@.take(i as int));
        i = i + 1;
    }
    assert(id@.take(32) =~= id@);
    assert(out@ =~= start + id_bytes(id@));
}

fn push_code(out: &mut Vec<u8>, c: u16)
    ensures
        final(out)@ == old(out)@ + code_bytes(c),
{
    if c < 0x80 {
        out.push(c as u8);
    } else if c < 0x100 {
        out.push(0xcc);
        out.push(c as u8);
    } else {
        out.push(0xcd);
        out.push((c >> 8u16) as u8);
        out.push(c as u8);
    }
    assert(final(out)@ =~= old(out)@ + code_bytes(c));
}

fn push_bin_header(out: &mut Vec<u8>, n: usize)
    requires
        n <= MAX_DATA_PAYLOAD,
    ensures
        final(out)@ == old(out)@ + bin_header(n as nat),
{
    if n < 0x100 {
        out.push(0xc4);
        out.push(n as u8);
    } else if n < 0x10000 {
        let x = n as u16;
        out.push(0xc5);
        out.push((x >> 8u16) as u8);
        out.push(x as u8);
    } else {
        let x = n as u32;
        out.push(0xc6);
        out.push((x >> 24u32) as u8);
        out.push((x >> 16u32) as u8);
        out.push((x >> 8u32) as u8);
        out.push(x as u8);
    }
    assert(final(out)@ =~= old(out)@ + bin_header(n as nat));
}

/// Appends the encoding of a frame to `out`. It fails, leaving `out` as it was,
/// only when a Data payload is too long for the binary header.
pub fn encode_frame(f: &Frame, out: &mut Vec<u8>) -> (ok: bool)
    ensures
        ok == frame_model_wf(f@),
        ok ==> final(out)@ == old(out)@ + frame_bytes(f@),
        !ok ==> final(out)@ == old(out)@,
{
    match f {
        Frame::Head(h) => {
            let ghost start = out@;
            out.extend_from_slice(&[0x81u8, 0xa4, 0x48, 0x65, 0x61, 0x64, 0x92]);
            assert(out@ =~= start + tag_head().push(0x92u8));
            push_id(out, &h.service_id);
            push_id(out, &h.method_id);
            assert(out@ =~= start + frame_bytes(f@));
            true
        },
        Frame::Data(p) => {
            if p.len() > 0xffff_ffff {
                return false;
            }
            let ghost start = out@;
            out.extend_from_slice(&[0x81u8, 0xa4, 0x44, 0x61, 0x74, 0x61]);
            assert(out@ =~= start + tag_data());
            push_bin_header(out, p.len());
            let ghost mid = out@;
            let mut i: usize = 0;
            while i < p.len()
                invariant
                    0 <= i <= p@.len(),
                    out@ == mid + p@.take(i as int),
                decreases p@.len() - i,
            {
                out.push(p[i]);
                assert(p@.take(i + 1) =~= p@.take(i as int).push(p@[i as int]));
                i = i + 1;
            }
            assert(p@.take(p@.len() as int) =~= p@);
            assert(out@ =~= start + frame_bytes(f@));
            true
        },
        Frame::Tail(t) => {
            let ghost start = out@;
            out.extend_from_slice(&[0x81u8, 0xa4, 0x54, 0x61, 0x69, 0x6c, 0x91]);
            assert(out@ =~= start + tag_tail().push(0x91u8));
            push_code(out, t.status);
            assert(out@ =~= start + frame_bytes(f@));
            true
        },
    }
}

fn read_byte_elem(b: &[u8], i: usize) -> (r: Option<(u8, usize)>)
    ensures
        r matches Some((x, k)) ==> parse_byte_elem(b@, i as int) == Some((x, k as int)),
        r is None ==> parse_byte_elem(b@, i as int) is None,
{
    if i < b.len() && b[i] < 0x80 {
        Some((b[i], i + 1))
    } else if i < b.len() && b.len() - i > 1 && b[i] == 0xcc && b[i + 1] >= 0x80 {
        Some((b[i + 1], i + 2))
    } else {
        None
    }
}

fn read_id(b: &[u8], i: usize) -> (r: Option<([u8; 32], usize)>)
    ensures
        r matches Some((id, k)) ==> parse_id(b@, i as int) == Some((id@, k as int)),
        r is None ==> parse_id(b@, i as int) is None,
{
    if !(i <= b.len() && b.len() - i >= 3 && b[i] == 0xdc && b[i + 1] == 0 && b[i + 2] == 0x20) {
        return None;
    }
    let mut id: [u8; 32] = [0u8; 32];
    let mut j: usize = i + 3;
    let mut n: usize = 0;
    while n < 32
        invariant
            0 <= n <= 32,
            i + 3 <= b@.len(),
            id@.len() == 32,
            parse_byte_elems(b@, i + 3, n as nat) == Some((id@.take(n as int), j as int)),
        decreases 32 - n,
    {
        match read_byte_elem(b, j) {
            Some((x, k)) => {
                let ghost prev = id@.take(n as int);
                id[n] = x;
                assert(id@.take(n + 1) =~= prev.push(x));
                j = k;
                n = n + 1;
            },
            None => {
                proof {
                    lemma_byte_elems_none_from(b@, i + 3, n as nat, 32);
                }
                return None;
            },
        }
    }
    assert(id@.take(32) =~= id@);
    Some((id, j))
}

proof fn lemma_byte_elems_none_from(b: Seq<u8>, i: int, n: nat, m: nat)
    requires
        n < m,
        parse_byte_elems(b, i, n) matches Some((_, j)) && parse_byte_elem(b, j) is None,
    ensures
        parse_byte_elems(b, i, m) is None,
    decreases m,
{
    if m > n + 1 {
        lemma_byte_elems_none_from(b, i, n, (m - 1) as nat);
    }
}

fn read_code(b: &[u8], i: usize) -> (r: Option<(u16, usize)>)
    ensures
        r matches Some((c, k)) ==> parse_code(b@, i as int) == Some((c, k as int)),
        r is None ==> parse_code(b@, i as int) is None,
{
    if i < b.len() && b[i] < 0x80 {
        Some((b[i] as u16, i + 1))
    } else if i < b.len() && b.len() - i > 1 && b[i] == 0xcc && b[i + 1] >= 0x80 {
        Some((b[i + 1] as u16, i + 2))
    } else if i < b.len() && b.len() - i > 2 && b[i] == 0xcd && b[i + 1] != 0 {
        Some((((b[i + 1] as u16) << 8u16) | (b[i + 2] as u16), i + 3))
    } else {
        None
    }
}

fn read_bin_header(b: &[u8], i: usize) -> (r: Option<(usize, usize)>)
    ensures
        r matches Some((n, k)) ==> parse_bin_header(b@, i as int) == Some((n as nat, k as int)),
        r is None ==> parse_bin_header(b@, i as int) is None,
{
    if i < b.len() && b.len() - i > 1 && b[i] == 0xc4 {
        Some((b[i + 1] as usize, i + 2))
    } else if i < b.len() && b.len() - i > 2 && b[i] == 0xc5 && b[i + 1] != 0 {
        let v: u16 = ((b[i + 1] as u16) << 8u16) | (b[i + 2] as u16);
        Some((v as usize, i + 3))
    } else if i < b.len() && b.len() - i > 4 && b[i] == 0xc6 && (b[i + 1] != 0 || b[i + 2] != 0) {
        let v: u32 = ((b[i + 1] as u32) << 24u32) | ((b[i + 2] as u32) << 16u32)
            | ((b[i + 3] as u32) << 8u32) | (b[i + 4] as u32);
        Some((v as usize, i + 5))
    } else {
        None
    }
}

fn has_tag(b: &[u8], t0: u8, t1: u8, t2: u8, t3: u8) -> (r: bool)
    requires
        b@.len() >= 6,
    ensures
        r == (b@.subrange(0, 6) == seq![0x81u8, 0xa4u8, t0, t1, t2, t3]),
{
    let r = b[0] == 0x81 && b[1] == 0xa4 && b[2] == t0 && b[3] == t1 && b[4] == t2 && b[5] == t3;
    proof {
        if r {
            assert(b@.subrange(0, 6) =~= seq![0x81u8, 0xa4u8, t0, t1, t2, t3]);
        } else {
            if b@.subrange(0, 6) == seq![0x81u8, 0xa4u8, t0, t1, t2, t3] {
                assert(b@.subrange(0, 6)[0] == b@[0]);
                assert(b@.subrange(0, 6)[1] == b@[1]);
                assert(b@.subrange(0, 6)[2] == b@[2]);
                assert(b@.subrange(0, 6)[3] == b@[3]);
                assert(b@.subrange(0, 6)[4] == b@[4]);
                assert(b@.subrange(0, 6)[5] == b@[5]);
            }
        }
    }
    r
}

/// Decodes one whole record into the frame it encodes.
pub fn decode_frame(b: &[u8]) -> (r: Option<Frame>)
    ensures
        r matches Some(f) ==> parse_frame(b@) == Some(f@),
        r is None ==> parse_frame(b@) is None,
{
    if b.len() < 6 {
        return None;
    }
    if has_tag(b, 0x48, 0x65, 0x61, 0x64) {
        if b.len() > 6 && b[6] == 0x92 {
            if let Some((service_id, j)) = read_id(b, 7) {
                if let Some((method_id, k)) = read_id(b, j) {
                    if k == b.len() {
                        return Some(Frame::Head(HeadFrame { service_id, method_id }));
                    }
                }
            }
        }
        None
    } else if has_tag(b, 0x44, 0x61, 0x74, 0x61) {
        if let Some((n, j)) = read_bin_header(b, 6) {
            if j <= b.len() && b.len() - j == n {
                let mut payload: Vec<u8> = Vec::new();
                let mut i: usize = j;
                while i < b.len()
                    invariant
                        j <= i <= b@.len(),
                        payload@ == b@.subrange(j as int, i as int),
                    decreases b@.len() - i,
                {
                    payload.push(b[i]);
                    assert(b@.subrange(j as int, i + 1) =~= b@.subrange(j as int, i as int).push(b@[i as int]));
                    i = i + 1;
                }
                return Some(Frame::Data(payload));
            }
        }
        None
    } else if has_tag(b, 0x54, 0x61, 0x69, 0x6c) {
        if b.len() > 6 && b[6] == 0x91 {
            if let Some((c, j)) = read_code(b, 7) {
                if j == b.len() {
                    return Some(Frame::Tail(TailFrame { status: c }));
                }
            }
        }
        None
    } else {
        None
    }
}

} // verus!
