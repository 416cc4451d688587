//! gRPC length-prefixed message framing.
use vstd::prelude::*;
use vstd::slice::slice_subrange;
use vstd::slice::slice_to_vec;
use crate::inspect::{FieldModel, ProtoField, decode_message, decode_protobuf, fields_model};

verus! {

/// A decoded gRPC frame.
#[derive(Debug)]
pub struct GrpcFrame {
    /// Whether the frame is compressed.
    pub compressed: bool,
    /// The raw payload bytes.
    pub payload: Vec<u8>,
    /// Decoded protobuf fields (if decoding succeeded).
    pub decoded_fields: Option<Vec<ProtoField>>,
}

/// Mathematical model of a gRPC frame.
pub struct FrameModel {
    pub compressed: bool,
    pub payload: Seq<u8>,
    pub decoded_fields: Option<Seq<FieldModel>>,
}

impl GrpcFrame {
    pub open spec fn model(self) -> FrameModel {
        FrameModel {
            compressed: self.compressed,
            payload: self.payload@,
            decoded_fields: match self.decoded_fields {
                Some(fs) => Some(fields_model(fs@)),
                None => None,
            },
        }
    }
}

/// The models of a sequence of frames, in order.
pub open spec fn frames_model(frames: Seq<GrpcFrame>) -> Seq<FrameModel> {
    frames.map_values(|f: GrpcFrame| f.model())
}

/// The unsigned number whose big-endian bytes are `s`.
pub open spec fn big_endian(s: Seq<u8>) -> nat
    decreases s.len(),
{
    if s.len() == 0 {
        0
    } else {
        (big_endian(s.drop_last()) * 256 + s.last()) as nat
    }
}

/// Size of the header before each frame's payload: a flag byte and a
/// four-byte big-endian length.
pub open spec fn frame_header_len() -> nat {
    5
}

/// The frame whose header starts `data`, read as gRPC frames are: the payload is
/// decoded as protobuf only when the compressed flag is zero. `None` when the
/// header or the payload is cut off. The second component is the frame's size.
pub open spec fn frame_at(data: Seq<u8>) -> Option<(FrameModel, nat)> {
    if data.len() < 5 {
        None
    } else {
        let compressed = data[0] != 0;
        let length = big_endian(data.subrange(1, 5));
        if 5 + length > data.len() {
            None
        } else {
            let payload = data.subrange(5, (5 + length) as int);
            Some((
                FrameModel {
                    compressed,
                    payload,
                    decoded_fields: if compressed { None } else { decode_message(payload) },
                },
                5 + length,
            ))
        }
    }
}

/// The complete frames at the front of `data`, in order. Reading stops at the
/// first frame whose header or payload is cut off; what follows it is ignored.
pub open spec fn frames_of(data: Seq<u8>) -> Seq<FrameModel>
    decreases data.len(),
{
    match frame_at(data) {
        Some((frame, size)) => seq![frame] + frames_of(data.skip(size as int)),
        None => Seq::empty(),
    }
}

/// The four big-endian bytes of a number below `2^32`.
pub open spec fn be32_bytes(n: nat) -> Seq<u8> {
    seq![
        (n / 0x100_0000 % 256) as u8,
        (n / 0x1_0000 % 256) as u8,
        (n / 0x100 % 256) as u8,
        (n % 256) as u8,
    ]
}

/// A frame as gRPC writes it: the flag byte, the payload's length in four
/// big-endian bytes, then the payload.
pub open spec fn frame_bytes(flag: u8, payload: Seq<u8>) -> Seq<u8> {
    seq![flag] + be32_bytes(payload.len()) + payload
}

proof fn lemma_big_endian4(s: Seq<u8>)
    requires
        s.len() == 4,
    ensures
        big_endian(s) == ((s[0] * 256 + s[1]) * 256 + s[2]) * 256 + s[3],
{
    let s3 = s.drop_last();
    let s2 = s3.drop_last();
    let s1 = s2.drop_last();
    assert(s1.drop_last() =~= Seq::<u8>::empty());
    assert(big_endian(s1.drop_last()) == 0);
    assert(s1.last() == s[0]);
    assert(s2.last() == s[1]);
    assert(s3.last() == s[2]);
    assert(big_endian(s1) == s[0]);
    assert(big_endian(s2) == s[0] * 256 + s[1]);
    assert(big_endian(s3) == (s[0] * 256 + s[1]) * 256 + s[2]);
}

proof fn lemma_be32_roundtrip(n: nat)
    requires
        n < 0x1_0000_0000,
    ensures
        big_endian(be32_bytes(n)) == n,
{
    let s = be32_bytes(n);
    lemma_big_endian4(s);
    let a = n / 0x100_0000;
    let b = n / 0x1_0000 % 256;
    let c = n / 0x100 % 256;
    let d = n % 256;
    assert(((a * 256 + b) * 256 + c) * 256 + d == n && a < 256) by (nonlinear_arith)
        requires
            a == n / 0x100_0000,
            b == n / 0x1_0000 % 256,
            c == n / 0x100 % 256,
            d == n % 256,
            n < 0x1_0000_0000,
    ;
}

/// A frame written with the gRPC header reads back as the same flag (non-zero
/// meaning compressed) and payload, the payload decoded exactly when the flag is
/// zero; reading then goes on with the bytes that follow the frame.
pub proof fn lemma_frame_roundtrip(flag: u8, payload: Seq<u8>, rest: Seq<u8>)
    requires
        payload.len() < 0x1_0000_0000,
    ensures
        frames_of(frame_bytes(flag, payload) + rest) == seq![
            FrameModel {
                compressed: flag != 0,
                payload,
                decoded_fields: if flag != 0 { None } else { decode_message(payload) },
            },
        ] + frames_of(rest),
{
    let data = frame_bytes(flag, payload) + rest;
    lemma_be32_roundtrip(payload.len());
    assert(data.subrange(1, 5) =~= be32_bytes(payload.len()));
    assert(data.subrange(5, 5 + payload.len() as int) =~= payload);
    assert(data.skip(5 + payload.len() as int) =~= rest);
}

/// Reads the big-endian `u32` in the four bytes at `pos`.
fn read_u32_be(data: &[u8], pos: usize) -> (r: u32)
    requires
        pos + 4 <= data@.len(),
    ensures
        r as nat == big_endian(data@.subrange(pos as int, pos + 4)),
{
    proof {
        lemma_big_endian4(data@.subrange(pos as int, pos + 4));
    }
    (data[pos] as u32) * 0x100_0000 + (data[pos + 1] as u32) * 0x1_0000 + (data[pos + 2] as u32)
        * 0x100 + (data[pos + 3] as u32)
}

/// Parses gRPC-encoded data into frames.
///
/// gRPC uses a length-prefixed framing format:
/// - 1 byte: compressed flag (0 = uncompressed, 1 = compressed)
/// - 4 bytes: message length (big-endian)
/// - N bytes: message payload
pub fn parse_grpc_frames(data: &[u8]) -> (frames: Vec<GrpcFrame>)
    ensures
        frames_model(frames@) == frames_of(data@),
{
    let mut frames: Vec<GrpcFrame> = Vec::new();
    let mut pos: usize = 0;
    assert(data@.skip(0) =~= data@);
    while data.len() - pos >= 5
        invariant
            pos <= data@.len(),
            frames_of(data@) == frames_model(frames@) + frames_of(data@.skip(pos as int)),
        ensures
            pos <= data@.len(),
            frames_of(data@) == frames_model(frames@) + frames_of(data@.skip(pos as int)),
            frames_of(data@.skip(pos as int)) =~= Seq::<FrameModel>::empty(),
        decreases data@.len() - pos,
    {
        let ghost rest = data@.skip(pos as int);
        let compressed = data[pos] != 0;
        let length = read_u32_be(data, pos + 1) as usize;
        assert(rest.subrange(1, 5) =~= data@.subrange(pos + 1, pos + 5));
        if length > data.len() - pos - 5 {
            assert(frame_at(rest) is None);
            break;
        }
        let start = pos + 5;
        let payload = slice_to_vec(slice_subrange(data, start, start + length));
        assert(payload@ =~= rest.subrange(5, 5 + length));
        let decoded_fields = if !compressed {
            decode_protobuf(payload.as_slice())
        } else {
            None
        };
        let frame = GrpcFrame { compressed, payload, decoded_fields };
        let ghost old_frames = frames@;
        frames.push(frame);
        pos = start + length;
        proof {
            assert(frames_model(frames@) =~= frames_model(old_frames).push(frame.model()));
            assert(rest.skip(5 + length) =~= data@.skip(pos as int));
            assert(frames_model(frames@) + frames_of(data@.skip(pos as int)) =~= frames_model(old_frames)
                + (seq![frame.model()] + frames_of(data@.skip(pos as int))));
        }
    }
    proof {
        assert(frames_model(frames@) + Seq::<FrameModel>::empty() =~= frames_model(frames@));
    }
    frames
}

} // verus!
