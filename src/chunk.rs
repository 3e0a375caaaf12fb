//! One framed chunk: length, type tag, payload and CRC.
use vstd::prelude::*;
use vstd::utf8::{decode_utf8, encode_utf8, valid_utf8};

verus! {

/// The eight bytes that open every PNG stream.
pub open spec fn signature() -> Seq<u8> {
    seq![137u8, 80, 78, 71, 13, 10, 26, 10]
}

/// The type tag of the header chunk, `IHDR`.
pub open spec fn ihdr_tag() -> Seq<u8> {
    seq![73u8, 72, 68, 82]
}

/// The type tag of the terminator chunk, `IEND`.
pub open spec fn iend_tag() -> Seq<u8> {
    seq![73u8, 69, 78, 68]
}

/// A chunk as values: the declared length, the type tag's bytes, the payload and the stored CRC.
pub ghost struct ChunkModel {
    pub size: u32,
    pub tag: Seq<u8>,
    pub data: Seq<u8>,
    pub crc: u32,
}

#[derive(Debug)]
pub struct PNGChunk {
    pub size: u32,
    pub chunk_type: String,
    pub data: Vec<u8>,
    pub crc: u32,
}

impl View for PNGChunk {
    type V = ChunkModel;

    open spec fn view(&self) -> ChunkModel {
        ChunkModel {
            size: self.size,
            tag: encode_utf8(self.chunk_type@),
            data: self.data@,
            crc: self.crc,
        }
    }
}

/// Whether `t` equals the four bytes `a b c d`.
fn tag_is(t: &[u8], a: u8, b: u8, c: u8, d: u8) -> (r: bool)
    ensures
        r == (t@ == seq![a, b, c, d]),
{
    if t.len() != 4 {
        assert(t@.len() != seq![a, b, c, d].len());
        return false;
    }
    let r = t[0] == a && t[1] == b && t[2] == c && t[3] == d;
    if r {
        assert(t@ =~= seq![a, b, c, d]);
    } else {
        assert(t@ != seq![a, b, c, d]) by {
            if t@ == seq![a, b, c, d] {
                assert(t@[0] == a && t@[1] == b && t@[2] == c && t@[3] == d);
            }
        }
    }
    r
}

pub fn is_iend(t: &[u8]) -> (r: bool)
    ensures
        r == (t@ == iend_tag()),
{
    tag_is(t, 73, 69, 78, 68)
}

pub fn is_ihdr(t: &[u8]) -> (r: bool)
    ensures
        r == (t@ == ihdr_tag()),
{
    tag_is(t, 73, 72, 68, 82)
}

/// Relies on String::from_utf8: `Ok` exactly when the bytes are valid UTF-8, and the
/// string then holds the text that those bytes encode.
#[verifier::external_body]
pub(crate) fn string_from_utf8(bytes: Vec<u8>) -> (r: Option<String>)
    ensures
        r is Some <==> valid_utf8(bytes@),
        r matches Some(s) ==> s@ == decode_utf8(bytes@),
{
    String::from_utf8(bytes).ok()
}

} // verus!
