//! The MessagePack encodings that message payloads are made of, and the
//! calls into `msgpacker` that write and read them.

use msgpacker::Packable;
use msgpacker::Unpackable;
use vstd::prelude::*;
use vstd::utf8::{decode_utf8, encode_utf8, encode_utf8_decode_utf8, encode_utf8_valid_utf8, valid_utf8};
use crate::wire::{be_u64_bytes, be_u64_of, lemma_be_u64_roundtrip};

verus! {

/// The two bytes of `v`, most significant first.
pub open spec fn be_u16_bytes(v: u16) -> Seq<u8> {
    seq![(v >> 8u16) as u8, v as u8]
}

/// The four bytes of `v`, most significant first.
pub open spec fn be_u32_bytes(v: u32) -> Seq<u8> {
    seq![(v >> 24u32) as u8, (v >> 16u32) as u8, (v >> 8u32) as u8, v as u8]
}

/// `b` begins with the bytes `p`.
pub open spec fn starts_with(b: Seq<u8>, p: Seq<u8>) -> bool {
    p.len() <= b.len() && b.subrange(0, p.len() as int) == p
}

/// MessagePack encoding of an unsigned integer in the fewest bytes.
pub open spec fn msgpack_u64(v: u64) -> Seq<u8> {
    if v <= 127 {
        seq![v as u8]
    } else if v <= 255 {
        seq![0xccu8, v as u8]
    } else if v <= 0xffff {
        seq![0xcdu8] + be_u16_bytes(v as u16)
    } else if v <= 0xffff_ffff {
        seq![0xceu8] + be_u32_bytes(v as u32)
    } else {
        seq![0xcfu8] + be_u64_bytes(v)
    }
}

/// MessagePack header of a string of `n` bytes, for `n` up to `u32::MAX`.
pub open spec fn msgpack_str_header(n: nat) -> Seq<u8>
    recommends
        n <= 0xffff_ffff,
{
    if n <= 31 {
        seq![(0xa0 + n) as u8]
    } else if n <= 255 {
        seq![0xd9u8, n as u8]
    } else if n <= 0xffff {
        seq![0xdau8] + be_u16_bytes(n as u16)
    } else {
        seq![0xdbu8] + be_u32_bytes(n as u32)
    }
}

/// A text whose encoding has a length field that MessagePack can hold.
pub open spec fn text_fits(s: Seq<char>) -> bool {
    encode_utf8(s).len() <= 0xffff_ffff
}

/// What is written for the text `s`: a header, then its UTF-8 bytes; for a
/// text whose UTF-8 length does not fit a `u32`, nothing at all.
pub open spec fn msgpack_str(s: Seq<char>) -> Seq<u8> {
    if text_fits(s) {
        msgpack_str_header(encode_utf8(s).len()) + encode_utf8(s)
    } else {
        Seq::empty()
    }
}

/// MessagePack header of an array of `n` items (empty above `u32::MAX`,
/// where nothing is written).
pub open spec fn msgpack_array_header(n: nat) -> Seq<u8> {
    if n <= 15 {
        seq![(0x90 + n) as u8]
    } else if n <= 0xffff {
        seq![0xdcu8] + be_u16_bytes(n as u16)
    } else if n <= 0xffff_ffff {
        seq![0xddu8] + be_u32_bytes(n as u32)
    } else {
        Seq::empty()
    }
}

/// The encodings of the texts of `items`, one after the other.
pub open spec fn msgpack_strs(items: Seq<Seq<char>>) -> Seq<u8>
    decreases items.len(),
{
    if items.len() == 0 {
        Seq::empty()
    } else {
        msgpack_str(items[0]) + msgpack_strs(items.drop_first())
    }
}

/// MessagePack encoding of an array of texts.
pub open spec fn msgpack_str_array(items: Seq<Seq<char>>) -> Seq<u8> {
    msgpack_array_header(items.len()) + msgpack_strs(items)
}

/// An array of texts whose length fields MessagePack can all hold.
pub open spec fn texts_fit(items: Seq<Seq<char>>) -> bool {
    &&& items.len() <= 0xffff_ffff
    &&& forall|i: int| 0 <= i < items.len() ==> #[trigger] text_fits(items[i])
}

/// The texts held by a vector of strings.
pub open spec fn texts_of(v: Seq<String>) -> Seq<Seq<char>> {
    v.map_values(|s: String| s@)
}

/// The value of two bytes, most significant first.
pub open spec fn be_u16_value(b0: u8, b1: u8) -> u16 {
    (b0 as u16) << 8u16 | (b1 as u16)
}

/// The value of four bytes, most significant first.
pub open spec fn be_u32_value(b0: u8, b1: u8, b2: u8, b3: u8) -> u32 {
    (b0 as u32) << 24u32 | (b1 as u32) << 16u32 | (b2 as u32) << 8u32 | (b3 as u32)
}

/// An unsigned integer read from the front of `b`: the number of bytes it
/// takes and its value. Positive fixint, uint8, uint16, uint32 and uint64
/// are read; any other tag, or too few bytes, gives `None`.
pub open spec fn msgpack_read_u64(b: Seq<u8>) -> Option<(int, u64)> {
    if b.len() == 0 {
        None
    } else if b[0] <= 0x7f {
        Some((1, b[0] as u64))
    } else if b[0] == 0xcc && b.len() >= 2 {
        Some((2, b[1] as u64))
    } else if b[0] == 0xcd && b.len() >= 3 {
        Some((3, be_u16_value(b[1], b[2]) as u64))
    } else if b[0] == 0xce && b.len() >= 5 {
        Some((5, be_u32_value(b[1], b[2], b[3], b[4]) as u64))
    } else if b[0] == 0xcf && b.len() >= 9 {
        Some((9, be_u64_of(b.subrange(1, 9))))
    } else {
        None
    }
}

/// A string header read from the front of `b`: its own length and the
/// length of the string it announces (fixstr, str8, str16 or str32).
pub open spec fn msgpack_read_str_header(b: Seq<u8>) -> Option<(int, int)> {
    if b.len() == 0 {
        None
    } else if 0xa0 <= b[0] <= 0xbf {
        Some((1, b[0] - 0xa0))
    } else if b[0] == 0xd9 && b.len() >= 2 {
        Some((2, b[1] as int))
    } else if b[0] == 0xda && b.len() >= 3 {
        Some((3, be_u16_value(b[1], b[2]) as int))
    } else if b[0] == 0xdb && b.len() >= 5 {
        Some((5, be_u32_value(b[1], b[2], b[3], b[4]) as int))
    } else {
        None
    }
}

/// A string read from the front of `b`: a header, then as many bytes as it
/// announces, which must be valid UTF-8.
pub open spec fn msgpack_read_str(b: Seq<u8>) -> Option<(int, Seq<char>)> {
    match msgpack_read_str_header(b) {
        None => None,
        Some((h, n)) => if h + n <= b.len() && valid_utf8(b.subrange(h, h + n)) {
            Some((h + n, decode_utf8(b.subrange(h, h + n))))
        } else {
            None
        },
    }
}

/// An array header read from the front of `b`: its own length and the
/// number of items it announces (fixarray, array16 or array32).
pub open spec fn msgpack_read_array_header(b: Seq<u8>) -> Option<(int, nat)> {
    if b.len() == 0 {
        None
    } else if 0x90 <= b[0] <= 0x9f {
        Some((1, (b[0] - 0x90) as nat))
    } else if b[0] == 0xdc && b.len() >= 3 {
        Some((3, be_u16_value(b[1], b[2]) as nat))
    } else if b[0] == 0xdd && b.len() >= 5 {
        Some((5, be_u32_value(b[1], b[2], b[3], b[4]) as nat))
    } else {
        None
    }
}

/// `count` strings read one after the other from the front of `b`.
pub open spec fn msgpack_read_strs(b: Seq<u8>, count: nat) -> Option<(int, Seq<Seq<char>>)>
    decreases count,
{
    if count == 0 {
        Some((0, Seq::empty()))
    } else {
        match msgpack_read_str(b) {
            None => None,
            Some((n, s)) => match msgpack_read_strs(b.subrange(n, b.len() as int), (count - 1) as nat) {
                None => None,
                Some((m, rest)) => Some((n + m, seq![s] + rest)),
            },
        }
    }
}

/// An array of strings read from the front of `b`: its header, then as
/// many strings as it announces.
pub open spec fn msgpack_read_str_array(b: Seq<u8>) -> Option<(int, Seq<Seq<char>>)> {
    match msgpack_read_array_header(b) {
        None => None,
        Some((h, count)) => match msgpack_read_strs(b.subrange(h, b.len() as int), count) {
            None => None,
            Some((m, items)) => Some((h + m, items)),
        },
    }
}

/// The error type of `msgpacker`'s readers.
#[verifier::external_type_specification]
#[verifier::external_body]
pub struct ExMsgpackerError(msgpacker::Error);

/// Calls `<u64 as msgpacker::Packable>::pack`, which appends the
/// MessagePack encoding of `v` in the fewest bytes (its source writes
/// positive fixint, uint8, uint16, uint32 or uint64 by the size of `v`).
#[verifier::external_body]
pub(crate) fn pack_u64(v: u64, buf: &mut Vec<u8>)
    ensures
        final(buf)@ == old(buf)@ + msgpack_u64(v),
{
    v.pack(buf);
}

/// Calls `<String as msgpacker::Packable>::pack`, which appends a str
/// header for the UTF-8 length of `s` and then its UTF-8 bytes, or nothing
/// at all when that length does not fit a `u32` (the `strict` feature,
/// under which it would panic instead, is not enabled).
#[verifier::external_body]
pub(crate) fn pack_str(s: &String, buf: &mut Vec<u8>)
    ensures
        final(buf)@ == old(buf)@ + msgpack_str(s@),
{
    s.pack(buf);
}

/// Calls `msgpacker::pack_array` on the strings of `items`, which appends
/// an array header for their number (none above `u32::MAX` items) and then
/// each string as `pack_str` writes it, in order.
#[verifier::external_body]
pub(crate) fn pack_str_array(items: &Vec<String>, buf: &mut Vec<u8>)
    ensures
        final(buf)@ == old(buf)@ + msgpack_str_array(texts_of(items@)),
{
    msgpacker::pack_array(buf, items);
}

/// Calls `<u64 as msgpacker::Unpackable>::unpack_with_ofs`, whose source
/// reads exactly what `msgpack_read_u64` describes and fails otherwise.
#[verifier::external_body]
pub(crate) fn unpack_u64(buf: &[u8]) -> (r: Result<(usize, u64), msgpacker::Error>)
    ensures
        match r {
            Ok((n, v)) => msgpack_read_u64(buf@) == Some((n as int, v)),
            Err(_) => msgpack_read_u64(buf@) is None,
        },
{
    <u64 as Unpackable>::unpack_with_ofs(buf)
}

/// Calls `<String as msgpacker::Unpackable>::unpack_with_ofs`, whose source
/// reads exactly what `msgpack_read_str` describes (the bytes go through
/// `str::from_utf8`) and fails otherwise.
#[verifier::external_body]
pub(crate) fn unpack_str(buf: &[u8]) -> (r: Result<(usize, String), msgpacker::Error>)
    ensures
        match r {
            Ok((n, s)) => msgpack_read_str(buf@) == Some((n as int, s@)),
            Err(_) => msgpack_read_str(buf@) is None,
        },
{
    <String as Unpackable>::unpack_with_ofs(buf)
}

/// Calls `msgpacker::unpack_array` for strings, whose source reads an array
/// header and then each string in turn, exactly as `msgpack_read_str_array`
/// describes, and fails at the first item that cannot be read.
#[verifier::external_body]
pub(crate) fn unpack_str_array(buf: &[u8]) -> (r: Result<(usize, Vec<String>), msgpacker::Error>)
    ensures
        match r {
            Ok((n, v)) => msgpack_read_str_array(buf@) == Some((n as int, texts_of(v@))),
            Err(_) => msgpack_read_str_array(buf@) is None,
        },
{
    msgpacker::unpack_array::<String, Vec<String>>(buf)
}

/// If `b` starts with `p + q`, it starts with `p`, and after `p` it starts
/// with `q`.
pub proof fn lemma_split_prefix(b: Seq<u8>, p: Seq<u8>, q: Seq<u8>)
    requires
        starts_with(b, p + q),
    ensures
        starts_with(b, p),
        starts_with(b.subrange(p.len() as int, b.len() as int), q),
{
    let pq = p + q;
    let lp = p.len() as int;
    let lq = q.len() as int;
    assert(b.subrange(0, lp + lq) == pq);
    assert(b.subrange(0, lp) =~= b.subrange(0, lp + lq).subrange(0, lp));
    assert(pq.subrange(0, lp) =~= p);
    assert(b.subrange(lp, b.len() as int).subrange(0, lq) =~= b.subrange(0, lp + lq).subrange(
        lp,
        lp + lq,
    ));
    assert(pq.subrange(lp, lp + lq) =~= q);
}

/// The bytes of `b` that a prefix `p` covers are those of `p`.
proof fn lemma_prefix_bytes(b: Seq<u8>, p: Seq<u8>)
    requires
        starts_with(b, p),
    ensures
        forall|i: int| 0 <= i < p.len() ==> b[i] == #[trigger] p[i],
{
    assert forall|i: int| 0 <= i < p.len() implies b[i] == #[trigger] p[i] by {
        assert(b.subrange(0, p.len() as int)[i] == b[i]);
    }
}

/// Two and four big-endian bytes give back the value they were taken from.
proof fn lemma_be_small_roundtrip(v16: u16, v32: u32)
    ensures
        be_u16_value((v16 >> 8u16) as u8, v16 as u8) == v16,
        be_u32_value((v32 >> 24u32) as u8, (v32 >> 16u32) as u8, (v32 >> 8u32) as u8, v32 as u8)
            == v32,
{
    assert(((((v16 >> 8u16) as u8) as u16) << 8u16 | ((v16 as u8) as u16)) == v16) by (bit_vector);
    assert(((((v32 >> 24u32) as u8) as u32) << 24u32 | (((v32 >> 16u32) as u8) as u32) << 16u32
        | (((v32 >> 8u32) as u8) as u32) << 8u32 | ((v32 as u8) as u32)) == v32) by (bit_vector);
}

/// Whatever is written for an unsigned integer is read back, with its
/// length.
pub proof fn lemma_read_u64_roundtrip(b: Seq<u8>, v: u64)
    requires
        starts_with(b, msgpack_u64(v)),
    ensures
        msgpack_read_u64(b) == Some((msgpack_u64(v).len() as int, v)),
{
    let e = msgpack_u64(v);
    lemma_prefix_bytes(b, e);
    assert(b[0] == e[0]);
    if v <= 127 {
        assert(b[0] as u64 == v);
    } else if v <= 255 {
        assert(b[1] == e[1]);
        assert(b[1] as u64 == v);
    } else if v <= 0xffff {
        let w = v as u16;
        lemma_be_small_roundtrip(w, 0);
        assert(b[1] == e[1] && b[2] == e[2]);
        assert(be_u16_value(b[1], b[2]) == w);
    } else if v <= 0xffff_ffff {
        let w = v as u32;
        lemma_be_small_roundtrip(0, w);
        assert(b[1] == e[1] && b[2] == e[2] && b[3] == e[3] && b[4] == e[4]);
        assert(be_u32_value(b[1], b[2], b[3], b[4]) == w);
    } else {
        assert forall|j: int| 0 <= j < 8 implies #[trigger] b.subrange(1, 9)[j] == be_u64_bytes(v)[j] by {
            assert(b[j + 1] == e[j + 1]);
        }
        assert(b.subrange(1, 9) =~= be_u64_bytes(v));
        lemma_be_u64_roundtrip(v);
    }
}

/// Whatever is written for a string header of `n` bytes is read back.
proof fn lemma_read_str_header_roundtrip(b: Seq<u8>, n: nat)
    requires
        n <= 0xffff_ffff,
        starts_with(b, msgpack_str_header(n)),
    ensures
        msgpack_read_str_header(b) == Some((msgpack_str_header(n).len() as int, n as int)),
{
    let e = msgpack_str_header(n);
    lemma_prefix_bytes(b, e);
    assert(b[0] == e[0]);
    if n <= 31 {
        assert(b[0] - 0xa0 == n);
    } else if n <= 255 {
        assert(b[1] == e[1]);
        assert(b[1] as int == n);
    } else if n <= 0xffff {
        let w = n as u16;
        lemma_be_small_roundtrip(w, 0);
        assert(b[1] == e[1] && b[2] == e[2]);
        assert(be_u16_value(b[1], b[2]) == w);
    } else {
        let w = n as u32;
        lemma_be_small_roundtrip(0, w);
        assert(b[1] == e[1] && b[2] == e[2] && b[3] == e[3] && b[4] == e[4]);
        assert(be_u32_value(b[1], b[2], b[3], b[4]) == w);
    }
}

/// Whatever is written for a text that fits the format is read back, with
/// its length.
pub proof fn lemma_read_str_roundtrip(b: Seq<u8>, s: Seq<char>)
    requires
        text_fits(s),
        starts_with(b, msgpack_str(s)),
    ensures
        msgpack_read_str(b) == Some((msgpack_str(s).len() as int, s)),
{
    let u = encode_utf8(s);
    let hd = msgpack_str_header(u.len());
    lemma_split_prefix(b, hd, u);
    lemma_read_str_header_roundtrip(b, u.len());
    let h = hd.len() as int;
    assert(b.subrange(h, h + u.len()) =~= b.subrange(h, b.len() as int).subrange(0, u.len() as int));
    encode_utf8_valid_utf8(s);
    encode_utf8_decode_utf8(s);
}

/// Whatever is written for texts that fit the format is read back as that
/// many strings, with their length.
proof fn lemma_read_strs_roundtrip(b: Seq<u8>, items: Seq<Seq<char>>)
    requires
        forall|i: int| 0 <= i < items.len() ==> #[trigger] text_fits(items[i]),
        starts_with(b, msgpack_strs(items)),
    ensures
        msgpack_read_strs(b, items.len()) == Some((msgpack_strs(items).len() as int, items)),
    decreases items.len(),
{
    if items.len() > 0 {
        let p = msgpack_str(items[0]);
        let rest = items.drop_first();
        assert(text_fits(items[0]));
        lemma_split_prefix(b, p, msgpack_strs(rest));
        lemma_read_str_roundtrip(b, items[0]);
        assert forall|i: int| 0 <= i < rest.len() implies #[trigger] text_fits(rest[i]) by {
            assert(text_fits(items[i + 1]));
        }
        lemma_read_strs_roundtrip(b.subrange(p.len() as int, b.len() as int), rest);
        assert(seq![items[0]] + rest =~= items);
    } else {
        assert(items =~= Seq::empty());
    }
}

/// Whatever is written for an array of texts that fit the format is read
/// back, with its length.
pub proof fn lemma_read_str_array_roundtrip(b: Seq<u8>, items: Seq<Seq<char>>)
    requires
        texts_fit(items),
        starts_with(b, msgpack_str_array(items)),
    ensures
        msgpack_read_str_array(b) == Some((msgpack_str_array(items).len() as int, items)),
{
    let hd = msgpack_array_header(items.len());
    let n = items.len();
    lemma_split_prefix(b, hd, msgpack_strs(items));
    lemma_prefix_bytes(b, hd);
    assert(b[0] == hd[0]);
    if n <= 15 {
        assert(b[0] - 0x90 == n);
    } else if n <= 0xffff {
        let w = n as u16;
        lemma_be_small_roundtrip(w, 0);
        assert(b[1] == hd[1] && b[2] == hd[2]);
        assert(be_u16_value(b[1], b[2]) == w);
    } else {
        let w = n as u32;
        lemma_be_small_roundtrip(0, w);
        assert(b[1] == hd[1] && b[2] == hd[2] && b[3] == hd[3] && b[4] == hd[4]);
        assert(be_u32_value(b[1], b[2], b[3], b[4]) == w);
    }
    assert(msgpack_read_array_header(b) == Some((hd.len() as int, n)));
    lemma_read_strs_roundtrip(b.subrange(hd.len() as int, b.len() as int), items);
}

/// Strings read one after the other take no more bytes than there are,
/// and there are as many as were asked for.
proof fn lemma_read_strs_len(b: Seq<u8>, count: nat)
    ensures
        msgpack_read_strs(b, count) is Some ==> 0 <= msgpack_read_strs(b, count).unwrap().0
            <= b.len() && msgpack_read_strs(b, count).unwrap().1.len() == count,
    decreases count,
{
    if count > 0 {
        if let Some((n, s)) = msgpack_read_str(b) {
            lemma_read_strs_len(b.subrange(n, b.len() as int), (count - 1) as nat);
        }
    }
}

/// A read array of strings takes no more bytes than there are.
pub proof fn lemma_read_str_array_len(b: Seq<u8>)
    ensures
        msgpack_read_str_array(b) is Some ==> 0 < msgpack_read_str_array(b).unwrap().0 <= b.len(),
{
    if let Some((h, count)) = msgpack_read_array_header(b) {
        lemma_read_strs_len(b.subrange(h, b.len() as int), count);
    }
}

} // verus!
