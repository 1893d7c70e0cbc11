//! Framing of messages on the connection between two peers.
//!
//! Every message is a frame: the payload length as a big-endian `u64`,
//! one byte that tells the kind of payload, then the payload itself.

use vstd::prelude::*;

verus! {

/// Kind of payload carried by a frame.
#[derive(Clone, Copy, Debug, PartialEq, Eq, Structural)]
pub enum DataType {
    File,
    Directory,
    TextBuffer,
}

/// The tag byte that stands for each kind of payload.
pub open spec fn data_type_tag(d: DataType) -> u8 {
    match d {
        DataType::File => 0,
        DataType::Directory => 1,
        DataType::TextBuffer => 2,
    }
}

/// The kind of payload that a tag byte stands for, if any.
pub open spec fn data_type_of_tag(value: u8) -> Option<DataType> {
    if value == 0 {
        Some(DataType::File)
    } else if value == 1 {
        Some(DataType::Directory)
    } else if value == 2 {
        Some(DataType::TextBuffer)
    } else {
        None
    }
}

impl DataType {
    /// The tag byte of this kind.
    pub fn to_u8(&self) -> (r: u8)
        ensures
            r == data_type_tag(*self),
            r <= 2,
    {
        match self {
            DataType::File => 0,
            DataType::Directory => 1,
            DataType::TextBuffer => 2,
        }
    }

    /// The kind that `value` stands for; `None` for any byte above 2.
    pub fn from_u8(value: u8) -> (r: Option<DataType>)
        ensures
            r == data_type_of_tag(value),
            r is None <==> value > 2,
    {
        match value {
            0 => Some(DataType::File),
            1 => Some(DataType::Directory),
            2 => Some(DataType::TextBuffer),
            _ => None,
        }
    }
}

/// Reading back the tag of a kind gives that kind.
pub proof fn lemma_tag_roundtrip(d: DataType)
    ensures
        data_type_of_tag(data_type_tag(d)) == Some(d),
{
}

/// A tag that stands for a kind is the tag of that kind.
pub proof fn lemma_tag_unique(value: u8)
    ensures
        data_type_of_tag(value) matches Some(d) ==> data_type_tag(d) == value,
{
}


/// The eight bytes of `v`, most significant first.
pub open spec fn be_u64_bytes(v: u64) -> Seq<u8> {
    seq![
        (v >> 56u64) as u8,
        (v >> 48u64) as u8,
        (v >> 40u64) as u8,
        (v >> 32u64) as u8,
        (v >> 24u64) as u8,
        (v >> 16u64) as u8,
        (v >> 8u64) as u8,
        v as u8,
    ]
}

/// The value of eight bytes read most significant first.
pub open spec fn be_u64_value(b0: u8, b1: u8, b2: u8, b3: u8, b4: u8, b5: u8, b6: u8, b7: u8) -> u64 {
    (b0 as u64) << 56u64 | (b1 as u64) << 48u64 | (b2 as u64) << 40u64 | (b3 as u64) << 32u64
        | (b4 as u64) << 24u64 | (b5 as u64) << 16u64 | (b6 as u64) << 8u64 | (b7 as u64)
}

/// The value of the first eight bytes of `b`, most significant first.
pub open spec fn be_u64_of(b: Seq<u8>) -> u64
    recommends
        b.len() >= 8,
{
    be_u64_value(b[0], b[1], b[2], b[3], b[4], b[5], b[6], b[7])
}

/// Big-endian encoding and decoding of a `u64` undo each other.
pub proof fn lemma_be_u64_roundtrip(v: u64)
    ensures
        be_u64_of(be_u64_bytes(v)) == v,
{
    let b = be_u64_bytes(v);
    assert(be_u64_value(
        (v >> 56u64) as u8,
        (v >> 48u64) as u8,
        (v >> 40u64) as u8,
        (v >> 32u64) as u8,
        (v >> 24u64) as u8,
        (v >> 16u64) as u8,
        (v >> 8u64) as u8,
        v as u8,
    ) == v) by (bit_vector);
}

/// The header that starts every frame.
#[derive(Clone, Copy, Debug, PartialEq, Eq, Structural)]
pub struct FrameHeader {
    /// Number of payload bytes that follow the header.
    pub msg_size: u64,
    /// Tag byte of the payload kind.
    pub msg_type: u8,
}

/// Number of bytes in a frame header.
pub const FRAME_HEADER_LEN: usize = 9;

/// The bytes of a frame header.
pub open spec fn header_bytes(h: FrameHeader) -> Seq<u8> {
    be_u64_bytes(h.msg_size).push(h.msg_type)
}

/// The bytes of a whole frame carrying `payload` as a payload of kind `kind`.
pub open spec fn frame_bytes(kind: DataType, payload: Seq<u8>) -> Seq<u8> {
    header_bytes(FrameHeader { msg_size: payload.len() as u64, msg_type: data_type_tag(kind) })
        + payload
}

/// The header read from the front of `bytes`, if there are enough of them.
pub open spec fn spec_parse_header(bytes: Seq<u8>) -> Option<FrameHeader> {
    if bytes.len() < 9 {
        None
    } else {
        Some(FrameHeader { msg_size: be_u64_of(bytes), msg_type: bytes[8] })
    }
}

/// Appends the eight big-endian bytes of `v` to `out`.
fn push_be_u64(out: &mut Vec<u8>, v: u64)
    ensures
        final(out)@ == old(out)@ + be_u64_bytes(v),
{
    out.push((v >> 56u64) as u8);
    out.push((v >> 48u64) as u8);
    out.push((v >> 40u64) as u8);
    out.push((v >> 32u64) as u8);
    out.push((v >> 24u64) as u8);
    out.push((v >> 16u64) as u8);
    out.push((v >> 8u64) as u8);
    out.push(v as u8);
    assert(final(out)@ =~= old(out)@ + be_u64_bytes(v));
}

/// The bytes of a frame header.
pub fn encode_header(header: FrameHeader) -> (r: Vec<u8>)
    ensures
        r@ == header_bytes(header),
        r@.len() == FRAME_HEADER_LEN,
{
    let mut out: Vec<u8> = Vec::new();
    push_be_u64(&mut out, header.msg_size);
    out.push(header.msg_type);
    assert(out@ =~= header_bytes(header));
    out
}

/// Reads a frame header from the front of `bytes`; `None` when fewer than
/// nine bytes are given.
pub fn parse_header(bytes: &[u8]) -> (r: Option<FrameHeader>)
    ensures
        r == spec_parse_header(bytes@),
{
    if bytes.len() < FRAME_HEADER_LEN {
        return None;
    }
    let msg_size = (bytes[0] as u64) << 56u64 | (bytes[1] as u64) << 48u64 | (bytes[2] as u64)
        << 40u64 | (bytes[3] as u64) << 32u64 | (bytes[4] as u64) << 24u64 | (bytes[5] as u64)
        << 16u64 | (bytes[6] as u64) << 8u64 | (bytes[7] as u64);
    Some(FrameHeader { msg_size, msg_type: bytes[8] })
}

/// The whole frame that carries `payload` as a payload of kind `kind`.
pub fn encode_frame(kind: DataType, payload: &[u8]) -> (r: Vec<u8>)
    ensures
        r@ == frame_bytes(kind, payload@),
{
    let mut out: Vec<u8> = Vec::new();
    push_be_u64(&mut out, payload.len() as u64);
    out.push(kind.to_u8());
    let mut i: usize = 0;
    while i < payload.len()
        invariant
            i <= payload@.len(),
            out@ == be_u64_bytes(payload@.len() as u64).push(data_type_tag(kind)) + payload@.subrange(0, i as int),
        decreases payload@.len() - i,
    {
        out.push(payload[i]);
        i = i + 1;
        assert(payload@.subrange(0, i as int) =~= payload@.subrange(0, i - 1).push(payload@[i - 1]));
    }
    assert(payload@.subrange(0, i as int) =~= payload@);
    out
}

/// Reading the header of a frame gives back the payload length and the
/// tag of its kind, and the payload follows the header.
pub proof fn lemma_frame_roundtrip(kind: DataType, payload: Seq<u8>)
    requires
        payload.len() <= u64::MAX,
    ensures
        spec_parse_header(frame_bytes(kind, payload)) == Some(
            FrameHeader { msg_size: payload.len() as u64, msg_type: data_type_tag(kind) },
        ),
        frame_bytes(kind, payload).subrange(9, frame_bytes(kind, payload).len() as int) == payload,
        data_type_of_tag(spec_parse_header(frame_bytes(kind, payload))->Some_0.msg_type) == Some(kind),
{
    let f = frame_bytes(kind, payload);
    lemma_be_u64_roundtrip(payload.len() as u64);
    assert(f.subrange(9, f.len() as int) =~= payload);
    assert(be_u64_of(f) == be_u64_of(be_u64_bytes(payload.len() as u64)));
}

/// Reading a header and writing it again gives back the bytes read.
pub proof fn lemma_header_bytes_roundtrip(bytes: Seq<u8>)
    requires
        bytes.len() == 9,
    ensures
        header_bytes(spec_parse_header(bytes)->Some_0) == bytes,
{
    let (b0, b1, b2, b3, b4, b5, b6, b7) = (bytes[0], bytes[1], bytes[2], bytes[3], bytes[4], bytes[5], bytes[6], bytes[7]);
    let v = be_u64_value(b0, b1, b2, b3, b4, b5, b6, b7);
    assert((v >> 56u64) as u8 == b0 && (v >> 48u64) as u8 == b1 && (v >> 40u64) as u8 == b2
        && (v >> 32u64) as u8 == b3 && (v >> 24u64) as u8 == b4 && (v >> 16u64) as u8 == b5
        && (v >> 8u64) as u8 == b6 && v as u8 == b7) by (bit_vector)
        requires v == be_u64_value(b0, b1, b2, b3, b4, b5, b6, b7);
    assert(header_bytes(spec_parse_header(bytes)->Some_0) =~= bytes);
}

} // verus!
