//! Payloads of the messages exchanged between peers, and the whole frames
//! that carry them.

use vstd::prelude::*;
use crate::wire::{encode_frame, frame_bytes, DataType};
use crate::msgpack::{
    lemma_read_str_array_len, lemma_read_str_array_roundtrip, lemma_read_str_roundtrip,
    lemma_read_u64_roundtrip, lemma_split_prefix, msgpack_read_str, msgpack_read_str_array,
    msgpack_read_u64, msgpack_str, msgpack_str_array, msgpack_u64, pack_str, pack_str_array,
    pack_u64, starts_with, text_fits, texts_fit, texts_of, unpack_str, unpack_str_array,
    unpack_u64,
};

verus! {

/// Metadata of a file or a directory: its path relative to the directory
/// being sent, one text per path component, and its size in bytes
/// (0 for a directory).
pub struct FileMeta {
    pub file_relative_path: Vec<String>,
    pub file_size: u64,
}

/// A clipboard text.
pub struct TextMeta {
    pub data: String,
}

/// Why a payload could not be read.
#[derive(Clone, Copy, Debug, PartialEq, Eq, Structural)]
pub enum PayloadError {
    /// The bytes are not a MessagePack encoding of the expected fields.
    Malformed,
}

impl View for FileMeta {
    type V = (Seq<Seq<char>>, u64);

    open spec fn view(&self) -> (Seq<Seq<char>>, u64) {
        (texts_of(self.file_relative_path@), self.file_size)
    }
}

impl View for TextMeta {
    type V = Seq<char>;

    open spec fn view(&self) -> Seq<char> {
        self.data@
    }
}

/// Payload bytes of a `FileMeta`: the path components as a MessagePack
/// array of strings, then the size as a MessagePack integer.
pub open spec fn file_meta_bytes(path: Seq<Seq<char>>, size: u64) -> Seq<u8> {
    msgpack_str_array(path) + msgpack_u64(size)
}

/// Payload bytes of a `TextMeta`: the text as a MessagePack string.
pub open spec fn text_meta_bytes(data: Seq<char>) -> Seq<u8> {
    msgpack_str(data)
}

/// What `FileMeta::unpack` reads from the front of `b`: bytes consumed,
/// path components and size.
pub open spec fn spec_unpack_file_meta(b: Seq<u8>) -> Option<(int, Seq<Seq<char>>, u64)> {
    match msgpack_read_str_array(b) {
        None => None,
        Some((n1, path)) => match msgpack_read_u64(b.subrange(n1, b.len() as int)) {
            None => None,
            Some((n2, size)) => Some((n1 + n2, path, size)),
        },
    }
}

/// What `TextMeta::unpack` reads from the front of `b`.
pub open spec fn spec_unpack_text_meta(b: Seq<u8>) -> Option<(int, Seq<char>)> {
    msgpack_read_str(b)
}

impl FileMeta {
    /// Appends the payload bytes of this metadata to `buf`; returns how
    /// many bytes were appended.
    pub fn pack(&self, buf: &mut Vec<u8>) -> (n: usize)
        ensures
            final(buf)@ == old(buf)@ + file_meta_bytes(self@.0, self@.1),
            n == file_meta_bytes(self@.0, self@.1).len(),
    {
        let before = buf.len();
        pack_str_array(&self.file_relative_path, buf);
        pack_u64(self.file_size, buf);
        assert(buf@ =~= old(buf)@ + file_meta_bytes(self@.0, self@.1));
        buf.len() - before
    }

    /// Reads a `FileMeta` from the front of `buf`; returns the number of
    /// bytes read with it. Whatever `pack` wrote for a path whose texts fit
    /// the format is read back exactly.
    pub fn unpack(buf: &[u8]) -> (r: Result<(usize, FileMeta), PayloadError>)
        ensures
            match r {
                Ok((n, m)) => spec_unpack_file_meta(buf@) == Some((n as int, m@.0, m@.1)),
                Err(_) => spec_unpack_file_meta(buf@) is None,
            },
            forall|path: Seq<Seq<char>>, size: u64|
                #![trigger file_meta_bytes(path, size)]
                texts_fit(path) && starts_with(buf@, file_meta_bytes(path, size)) ==> r.is_ok()
                    && r.unwrap().0 == file_meta_bytes(path, size).len() && r.unwrap().1@ == (
                    path,
                    size,
                ),
    {
        proof {
            lemma_read_str_array_len(buf@);
            assert forall|p: Seq<Seq<char>>, sz: u64|
                texts_fit(p) && starts_with(buf@, #[trigger] file_meta_bytes(p, sz)) implies spec_unpack_file_meta(buf@) == Some((file_meta_bytes(p, sz).len() as int, p, sz)) by {
                lemma_file_meta_roundtrip(buf@, p, sz);
            }
        }
        let (n1, path) = match unpack_str_array(buf) {
            Ok(x) => x,
            Err(_) => return Err(PayloadError::Malformed),
        };
        let rest = &buf[n1..buf.len()];
        assert(rest@ == buf@.subrange(n1 as int, buf@.len() as int));
        let (n2, size) = match unpack_u64(rest) {
            Ok(x) => x,
            Err(_) => return Err(PayloadError::Malformed),
        };
        Ok((n1 + n2, FileMeta { file_relative_path: path, file_size: size }))
    }
}

/// File metadata is read back from the bytes written for it, with their
/// length, when its path texts fit the format.
pub proof fn lemma_file_meta_roundtrip(b: Seq<u8>, path: Seq<Seq<char>>, size: u64)
    requires
        texts_fit(path),
        starts_with(b, file_meta_bytes(path, size)),
    ensures
        spec_unpack_file_meta(b) == Some((file_meta_bytes(path, size).len() as int, path, size)),
{
    let p = msgpack_str_array(path);
    lemma_split_prefix(b, p, msgpack_u64(size));
    lemma_read_str_array_roundtrip(b, path);
    lemma_read_u64_roundtrip(b.subrange(p.len() as int, b.len() as int), size);
}

/// A text is read back from the bytes written for it, with their length,
/// when it fits the format.
pub proof fn lemma_text_meta_roundtrip(b: Seq<u8>, data: Seq<char>)
    requires
        text_fits(data),
        starts_with(b, text_meta_bytes(data)),
    ensures
        spec_unpack_text_meta(b) == Some((text_meta_bytes(data).len() as int, data)),
{
    lemma_read_str_roundtrip(b, data);
}

impl TextMeta {
    /// Appends the payload bytes of this text to `buf`; returns how many
    /// bytes were appended.
    pub fn pack(&self, buf: &mut Vec<u8>) -> (n: usize)
        ensures
            final(buf)@ == old(buf)@ + text_meta_bytes(self@),
            n == text_meta_bytes(self@).len(),
    {
        let before = buf.len();
        pack_str(&self.data, buf);
        buf.len() - before
    }

    /// Reads a `TextMeta` from the front of `buf`; returns the number of
    /// bytes read with it. Whatever `pack` wrote for a text that fits the
    /// format is read back exactly.
    pub fn unpack(buf: &[u8]) -> (r: Result<(usize, TextMeta), PayloadError>)
        ensures
            match r {
                Ok((n, m)) => spec_unpack_text_meta(buf@) == Some((n as int, m@)),
                Err(_) => spec_unpack_text_meta(buf@) is None,
            },
            forall|data: Seq<char>|
                #![trigger text_meta_bytes(data)]
                text_fits(data) && starts_with(buf@, text_meta_bytes(data)) ==> r.is_ok()
                    && r.unwrap().0 == text_meta_bytes(data).len() && r.unwrap().1@ == data,
    {
        proof {
            assert forall|d: Seq<char>|
                text_fits(d) && starts_with(buf@, #[trigger] text_meta_bytes(d)) implies spec_unpack_text_meta(buf@) == Some((text_meta_bytes(d).len() as int, d)) by {
                lemma_text_meta_roundtrip(buf@, d);
            }
        }
        match unpack_str(buf) {
            Ok((n, data)) => Ok((n, TextMeta { data })),
            Err(_) => Err(PayloadError::Malformed),
        }
    }
}

/// The frame announcing a directory at `relative_path` (its size is 0).
pub fn dir_message(relative_path: Vec<String>) -> (r: Vec<u8>)
    ensures
        r@ == frame_bytes(DataType::Directory, file_meta_bytes(texts_of(relative_path@), 0)),
{
    let data = FileMeta { file_relative_path: relative_path, file_size: 0 };
    let mut buf: Vec<u8> = Vec::new();
    data.pack(&mut buf);
    assert(buf@ =~= file_meta_bytes(texts_of(data.file_relative_path@), 0));
    encode_frame(DataType::Directory, buf.as_slice())
}

/// The frame announcing a file at `relative_path` of `file_size` bytes;
/// the raw contents of the file follow it on the connection.
pub fn file_message(relative_path: Vec<String>, file_size: u64) -> (r: Vec<u8>)
    ensures
        r@ == frame_bytes(DataType::File, file_meta_bytes(texts_of(relative_path@), file_size)),
{
    let data = FileMeta { file_relative_path: relative_path, file_size };
    let mut buf: Vec<u8> = Vec::new();
    data.pack(&mut buf);
    assert(buf@ =~= file_meta_bytes(texts_of(data.file_relative_path@), file_size));
    encode_frame(DataType::File, buf.as_slice())
}

/// The frame carrying the clipboard text `content`.
pub fn text_message(content: String) -> (r: Vec<u8>)
    ensures
        r@ == frame_bytes(DataType::TextBuffer, text_meta_bytes(content@)),
{
    let data = TextMeta { data: content };
    let mut buf: Vec<u8> = Vec::new();
    data.pack(&mut buf);
    assert(buf@ =~= text_meta_bytes(data.data@));
    encode_frame(DataType::TextBuffer, buf.as_slice())
}

/// A payload read by the receiving side.
pub enum Incoming {
    /// A file follows: its metadata.
    File(FileMeta),
    /// A directory to create.
    Directory(FileMeta),
    /// A clipboard text.
    Text(TextMeta),
}

/// Reads the payload of a frame whose tag stands for `kind`: file and
/// directory payloads are read as `FileMeta`, text payloads as `TextMeta`.
/// A payload written by the sending side for such a value, with texts that
/// fit the format, is read back exactly.
pub fn read_payload(kind: DataType, payload: &[u8]) -> (r: Result<Incoming, PayloadError>)
    ensures
        match r {
            Ok(Incoming::File(m)) => kind == DataType::File && spec_unpack_file_meta(payload@) is Some
                && m@ == (
                spec_unpack_file_meta(payload@).unwrap().1,
                spec_unpack_file_meta(payload@).unwrap().2,
            ),
            Ok(Incoming::Directory(m)) => kind == DataType::Directory && spec_unpack_file_meta(
                payload@,
            ) is Some && m@ == (
                spec_unpack_file_meta(payload@).unwrap().1,
                spec_unpack_file_meta(payload@).unwrap().2,
            ),
            Ok(Incoming::Text(t)) => kind == DataType::TextBuffer && spec_unpack_text_meta(payload@)
                is Some && t@ == spec_unpack_text_meta(payload@).unwrap().1,
            Err(_) => if kind == DataType::TextBuffer {
                spec_unpack_text_meta(payload@) is None
            } else {
                spec_unpack_file_meta(payload@) is None
            },
        },
        forall|path: Seq<Seq<char>>, size: u64|
            #![trigger file_meta_bytes(path, size)]
            kind != DataType::TextBuffer && texts_fit(path) && starts_with(
                payload@,
                file_meta_bytes(path, size),
            ) ==> r.is_ok() && (r.unwrap() matches Incoming::File(m) ==> m@ == (path, size)) && (
            r.unwrap() matches Incoming::Directory(m) ==> m@ == (path, size)),
        forall|data: Seq<char>|
            #![trigger text_meta_bytes(data)]
            kind == DataType::TextBuffer && text_fits(data) && starts_with(
                payload@,
                text_meta_bytes(data),
            ) ==> r.is_ok() && r.unwrap() is Text && r.unwrap()->Text_0@ == data,
{
    match kind {
        DataType::File => match FileMeta::unpack(payload) {
            Ok((_, m)) => Ok(Incoming::File(m)),
            Err(e) => Err(e),
        },
        DataType::Directory => match FileMeta::unpack(payload) {
            Ok((_, m)) => Ok(Incoming::Directory(m)),
            Err(e) => Err(e),
        },
        DataType::TextBuffer => match TextMeta::unpack(payload) {
            Ok((_, t)) => Ok(Incoming::Text(t)),
            Err(e) => Err(e),
        },
    }
}

} // verus!
