//! The chunk stream: parsing and serialization.
use vstd::prelude::*;
use vstd::slice::{slice_subrange, slice_to_vec};
use vstd::utf8::{decode_utf8_encode_utf8, encode_utf8, valid_utf8};

use crate::bytes::{be32, be32_bytes, push_be32, read_be32};
use crate::chunk::{
    iend_tag, is_iend, signature, string_from_utf8, ChunkModel, PNGChunk,
};
use crate::crc::{crc32, CrcTable};
use crate::error::{ChunkField, PngError, PngErrorView};
use crate::header::header_spec;
use crate::laws::{chunks_ordered, lemma_parsed_order};

verus! {

/// A parsed container: its chunks in stream order.
#[derive(Debug)]
pub struct PngImage {
    pub chunks: Vec<PNGChunk>,
}

impl View for PngImage {
    type V = Seq<ChunkModel>;

    open spec fn view(&self) -> Seq<ChunkModel> {
        self.chunks@.map_values(|c: PNGChunk| c@)
    }
}

/// Whether a CRC trailer is written as stored or computed afresh.
#[derive(Clone, Copy, Debug, PartialEq, Eq)]
pub enum CrcMode {
    Verbatim,
    Recomputed,
}

/// A forward-only read position in a borrowed byte buffer.
pub struct ChunkCursor<'a> {
    pub data: &'a [u8],
    pub pos: usize,
}

impl<'a> ChunkCursor<'a> {
    pub fn new(data: &'a [u8]) -> (c: ChunkCursor<'a>)
        ensures
            c.data@ == data@,
            c.pos == 0,
    {
        ChunkCursor { data, pos: 0 }
    }

    pub open spec fn remaining(&self) -> int {
        self.data@.len() - self.pos
    }
}

/// Puts `prefix` before the chunks of a successful result.
pub open spec fn prefixed(prefix: Seq<ChunkModel>, r: Result<Seq<ChunkModel>, PngErrorView>) -> Result<
    Seq<ChunkModel>,
    PngErrorView,
> {
    match r {
        Ok(rest) => Ok(prefix + rest),
        Err(e) => Err(e),
    }
}

/// The chunks framed from `pos` on, up to and including the terminator, the first of
/// them having index `index`; or the first failure.
pub open spec fn parse_chunks(b: Seq<u8>, pos: int, index: nat) -> Result<
    Seq<ChunkModel>,
    PngErrorView,
>
    decreases b.len() - pos,
{
    if pos < 0 || b.len() < pos + 4 {
        Err(PngErrorView::TruncatedChunk { index, part: ChunkField::Length })
    } else if b.len() < pos + 8 {
        Err(PngErrorView::TruncatedChunk { index, part: ChunkField::Type })
    } else {
        let size = be32(b, pos);
        let tag = b.subrange(pos + 4, pos + 8);
        if !valid_utf8(tag) {
            Err(PngErrorView::InvalidChunkType { index })
        } else if b.len() < pos + 8 + size {
            Err(PngErrorView::TruncatedChunk { index, part: ChunkField::Payload })
        } else if b.len() < pos + 12 + size {
            Err(PngErrorView::TruncatedChunk { index, part: ChunkField::Crc })
        } else {
            let data = b.subrange(pos + 8, pos + 8 + size);
            let crc = be32(b, pos + 8 + size);
            let c = ChunkModel { size, tag, data, crc };
            if crc != crc32(tag + data) {
                Err(PngErrorView::ChecksumMismatch { index, tag })
            } else if tag == iend_tag() {
                Ok(seq![c])
            } else {
                prefixed(seq![c], parse_chunks(b, pos + 12 + size, index + 1))
            }
        }
    }
}

/// Whether `b` opens with the signature.
pub open spec fn has_signature(b: Seq<u8>) -> bool {
    b.len() >= 8 && b.subrange(0, 8) == signature()
}

/// The chunks of a container, or the first failure: the signature, then each chunk in
/// stream order, then the header chunk's fields.
pub open spec fn parse_png(b: Seq<u8>) -> Result<Seq<ChunkModel>, PngErrorView> {
    if !has_signature(b) {
        Err(PngErrorView::InvalidSignature)
    } else {
        match parse_chunks(b, 8, 0) {
            Ok(cs) => match header_spec(cs[0]) {
                Ok(_) => Ok(cs),
                Err(f) => Err(PngErrorView::MalformedHeader { field: f }),
            },
            Err(e) => Err(e),
        }
    }
}

/// The CRC trailer that `mode` writes for `c`.
pub open spec fn written_crc(c: ChunkModel, mode: CrcMode) -> u32 {
    match mode {
        CrcMode::Verbatim => c.crc,
        CrcMode::Recomputed => crc32(c.tag + c.data),
    }
}

/// The bytes of one chunk record.
pub open spec fn chunk_bytes(c: ChunkModel, mode: CrcMode) -> Seq<u8> {
    be32_bytes(c.size) + c.tag + c.data + be32_bytes(written_crc(c, mode))
}

/// The bytes of a run of chunk records.
pub open spec fn chunks_bytes(cs: Seq<ChunkModel>, mode: CrcMode) -> Seq<u8>
    decreases cs.len(),
{
    if cs.len() == 0 {
        Seq::empty()
    } else {
        chunk_bytes(cs[0], mode) + chunks_bytes(cs.drop_first(), mode)
    }
}

/// The bytes of a container: the signature, then every chunk record.
pub open spec fn png_bytes(cs: Seq<ChunkModel>, mode: CrcMode) -> Seq<u8> {
    signature() + chunks_bytes(cs, mode)
}

proof fn lemma_chunks_bytes_push(cs: Seq<ChunkModel>, c: ChunkModel, mode: CrcMode)
    ensures
        chunks_bytes(cs.push(c), mode) == chunks_bytes(cs, mode) + chunk_bytes(c, mode),
    decreases cs.len(),
{
    if cs.len() == 0 {
        assert(cs.push(c).drop_first() =~= Seq::<ChunkModel>::empty());
        assert(cs.push(c)[0] == c);
        assert(chunks_bytes(Seq::<ChunkModel>::empty(), mode) == Seq::<u8>::empty());
        assert(chunks_bytes(cs, mode) == Seq::<u8>::empty());
        assert(chunks_bytes(cs.push(c), mode) =~= chunks_bytes(cs, mode) + chunk_bytes(c, mode));
    } else {
        lemma_chunks_bytes_push(cs.drop_first(), c, mode);
        assert(cs.push(c).drop_first() =~= cs.drop_first().push(c));
        assert(chunks_bytes(cs.push(c), mode) =~= chunks_bytes(cs, mode) + chunk_bytes(c, mode));
    }
}

impl PngImage {
    /// Checks the signature at the start of the buffer and moves past it.
    pub fn check_file_type(cursor: &mut ChunkCursor) -> (r: Result<(), PngError>)
        ensures
            final(cursor).data == old(cursor).data,
            r is Ok <==> has_signature(old(cursor).data@),
            r is Ok ==> final(cursor).pos == 8,
            r is Err ==> r == Err::<(), PngError>(PngError::InvalidSignature),
    {
        cursor.pos = 0;
        let d = cursor.data;
        if d.len() < 8 {
            return Err(PngError::InvalidSignature);
        }
        let ok = d[0] == 137 && d[1] == 80 && d[2] == 78 && d[3] == 71 && d[4] == 13 && d[5]
            == 10 && d[6] == 26 && d[7] == 10;
        if ok {
            assert(d@.subrange(0, 8) =~= signature());
            cursor.pos = 8;
            Ok(())
        } else {
            assert(d@.subrange(0, 8) != signature()) by {
                if d@.subrange(0, 8) == signature() {
                    assert(d@.subrange(0, 8)[0] == d@[0]);
                    assert(d@.subrange(0, 8)[1] == d@[1]);
                    assert(d@.subrange(0, 8)[2] == d@[2]);
                    assert(d@.subrange(0, 8)[3] == d@[3]);
                    assert(d@.subrange(0, 8)[4] == d@[4]);
                    assert(d@.subrange(0, 8)[5] == d@[5]);
                    assert(d@.subrange(0, 8)[6] == d@[6]);
                    assert(d@.subrange(0, 8)[7] == d@[7]);
                }
            }
            Err(PngError::InvalidSignature)
        }
    }

    /// Reads the length field of chunk `index`.
    pub fn get_chunk_size(cursor: &mut ChunkCursor, index: usize) -> (r: Result<u32, PngError>)
        requires
            old(cursor).pos <= old(cursor).data@.len(),
        ensures
            final(cursor).data == old(cursor).data,
            old(cursor).remaining() >= 4 ==> r == Ok::<u32, PngError>(
                be32(old(cursor).data@, old(cursor).pos as int),
            ) && final(cursor).pos == old(cursor).pos + 4,
            old(cursor).remaining() < 4 ==> r is Err && r->Err_0@ == (PngErrorView::TruncatedChunk {
                index: index as nat,
                part: ChunkField::Length,
            }),
    {
        if cursor.data.len() - cursor.pos < 4 {
            return Err(PngError::TruncatedChunk { index, part: ChunkField::Length });
        }
        let size: u32 = read_be32(cursor.data, cursor.pos);
        cursor.pos = cursor.pos + 4;
        Ok(size)
    }

    /// Reads the type tag of chunk `index` and decodes it as text.
    pub fn get_chunk_type(cursor: &mut ChunkCursor, index: usize) -> (r: Result<String, PngError>)
        requires
            old(cursor).pos <= old(cursor).data@.len(),
        ensures
            final(cursor).data == old(cursor).data,
            ({
                let (b, p) = (old(cursor).data@, old(cursor).pos as int);
                if old(cursor).remaining() < 4 {
                    r is Err && r->Err_0@ == (PngErrorView::TruncatedChunk {
                        index: index as nat,
                        part: ChunkField::Type,
                    })
                } else if !valid_utf8(b.subrange(p, p + 4)) {
                    r is Err && r->Err_0@ == (PngErrorView::InvalidChunkType { index: index as nat })
                } else {
                    r is Ok && encode_utf8(r->Ok_0@) == b.subrange(p, p + 4) && final(cursor).pos
                        == p + 4
                }
            }),
    {
        if cursor.data.len() - cursor.pos < 4 {
            return Err(PngError::TruncatedChunk { index, part: ChunkField::Type });
        }
        let tag = slice_subrange(cursor.data, cursor.pos, cursor.pos + 4);
        match string_from_utf8(slice_to_vec(tag)) {
            Some(s) => {
                proof {
                    decode_utf8_encode_utf8(tag@);
                }
                cursor.pos = cursor.pos + 4;
                Ok(s)
            },
            None => Err(PngError::InvalidChunkType { index }),
        }
    }

    /// Reads the `size` payload bytes of chunk `index`.
    pub fn get_chunk_data(cursor: &mut ChunkCursor, index: usize, size: u32) -> (r: Result<
        Vec<u8>,
        PngError,
    >)
        requires
            old(cursor).pos <= old(cursor).data@.len(),
        ensures
            final(cursor).data == old(cursor).data,
            old(cursor).remaining() >= size ==> r is Ok && r->Ok_0@ == old(cursor).data@.subrange(
                old(cursor).pos as int,
                old(cursor).pos + size,
            ) && final(cursor).pos == old(cursor).pos + size,
            old(cursor).remaining() < size ==> r is Err && r->Err_0@ == (PngErrorView::TruncatedChunk {
                index: index as nat,
                part: ChunkField::Payload,
            }),
    {
        if cursor.data.len() - cursor.pos < size as usize {
            return Err(PngError::TruncatedChunk { index, part: ChunkField::Payload });
        }
        let end: usize = cursor.pos + size as usize;
        let payload = slice_to_vec(slice_subrange(cursor.data, cursor.pos, end));
        cursor.pos = end;
        Ok(payload)
    }

    /// Reads the CRC trailer of chunk `index`.
    pub fn get_chunk_crc(cursor: &mut ChunkCursor, index: usize) -> (r: Result<u32, PngError>)
        requires
            old(cursor).pos <= old(cursor).data@.len(),
        ensures
            final(cursor).data == old(cursor).data,
            old(cursor).remaining() >= 4 ==> r == Ok::<u32, PngError>(
                be32(old(cursor).data@, old(cursor).pos as int),
            ) && final(cursor).pos == old(cursor).pos + 4,
            old(cursor).remaining() < 4 ==> r is Err && r->Err_0@ == (PngErrorView::TruncatedChunk {
                index: index as nat,
                part: ChunkField::Crc,
            }),
    {
        if cursor.data.len() - cursor.pos < 4 {
            return Err(PngError::TruncatedChunk { index, part: ChunkField::Crc });
        }
        let crc: u32 = read_be32(cursor.data, cursor.pos);
        cursor.pos = cursor.pos + 4;
        Ok(crc)
    }
}

impl PngImage {
    /// Parses a container: the signature, the chunks up to and including the terminator,
    /// each with its CRC checked, and then the header chunk's fields.
    pub fn new(data: &[u8]) -> (r: Result<PngImage, PngError>)
        ensures
            match r {
                Ok(img) => parse_png(data@) == Ok::<Seq<ChunkModel>, PngErrorView>(img@),
                Err(e) => parse_png(data@) == Err::<Seq<ChunkModel>, PngErrorView>(e@),
            },
            r matches Ok(img) ==> chunks_ordered(img@),
    {
        let mut cursor = ChunkCursor::new(data);
        match Self::check_file_type(&mut cursor) {
            Ok(()) => {},
            Err(e) => return Err(e),
        }
        let table = CrcTable::new();
        let mut chunks: Vec<PNGChunk> = Vec::new();
        loop
            invariant
                cursor.data@ == data@,
                8 <= cursor.pos <= data@.len(),
                has_signature(data@),
                table.wf(),
                parse_chunks(data@, 8, 0) == prefixed(
                    chunks@.map_values(|c: PNGChunk| c@),
                    parse_chunks(data@, cursor.pos as int, chunks@.len() as nat),
                ),
            decreases data@.len() - cursor.pos,
        {
            let ghost b = data@;
            let ghost view = chunks@.map_values(|c: PNGChunk| c@);
            let index: usize = chunks.len();
            let start: usize = cursor.pos;
            let size: u32 = match Self::get_chunk_size(&mut cursor, index) {
                Ok(n) => n,
                Err(e) => return Err(e),
            };
            let chunk_type = match Self::get_chunk_type(&mut cursor, index) {
                Ok(t) => t,
                Err(e) => return Err(e),
            };
            let payload = match Self::get_chunk_data(&mut cursor, index, size) {
                Ok(p) => p,
                Err(e) => return Err(e),
            };
            let crc: u32 = match Self::get_chunk_crc(&mut cursor, index) {
                Ok(c) => c,
                Err(e) => return Err(e),
            };
            let ghost tag = b.subrange(start + 4, start + 8);
            let ghost c = ChunkModel { size, tag, data: payload@, crc };
            assert(b.subrange(start + 4, cursor.pos - 4) =~= tag + payload@);
            if !table.verify(slice_subrange(data, start + 4, cursor.pos - 4), crc) {
                return Err(PngError::ChecksumMismatch { index, chunk_type });
            }
            let last = is_iend(slice_subrange(data, start + 4, start + 8));
            let chunk = PNGChunk { size, chunk_type, data: payload, crc };
            assert(chunk@ == c);
            chunks.push(chunk);
            assert(chunks@.map_values(|c: PNGChunk| c@) =~= view + seq![c]);
            if last {
                let first = &chunks[0];
                assert(first@ == chunks@.map_values(|c: PNGChunk| c@)[0]);
                return match Self::get_png_info(first) {
                    Ok(_) => {
                        let img = PngImage { chunks };
                        proof {
                            lemma_parsed_order(data@);
                        }
                        Ok(img)
                    },
                    Err(e) => Err(e),
                };
            }
            proof {
                let rest = parse_chunks(b, cursor.pos as int, chunks@.len() as nat);
                match rest {
                    Ok(r) => assert((view + seq![c]) + r =~= view + (seq![c] + r)),
                    Err(_) => {},
                }
            }
        }
    }

    /// The bytes of the container: the signature, then for each chunk its length, type,
    /// payload and CRC trailer, written as `mode` says.
    pub fn to_bytes(&self, mode: CrcMode) -> (r: Vec<u8>)
        ensures
            r@ == png_bytes(self@, mode),
    {
        let table = CrcTable::new();
        let mut out: Vec<u8> = Vec::new();
        out.push(137);
        out.push(80);
        out.push(78);
        out.push(71);
        out.push(13);
        out.push(10);
        out.push(26);
        out.push(10);
        let ghost cs = self@;
        assert(out@ =~= signature());
        assert(cs.take(0) =~= Seq::<ChunkModel>::empty());
        let mut i: usize = 0;
        while i < self.chunks.len()
            invariant
                i <= self.chunks@.len(),
                cs == self@,
                table.wf(),
                out@ == signature() + chunks_bytes(cs.take(i as int), mode),
            decreases self.chunks@.len() - i,
        {
            let chunk = &self.chunks[i];
            let ghost before = out@;
            push_be32(&mut out, chunk.size);
            let tag_start: usize = out.len();
            let tag = chunk.chunk_type.as_str().as_bytes();
            let mut k: usize = 0;
            while k < tag.len()
                invariant
                    k <= tag@.len(),
                    tag_start <= out@.len(),
                    out@ == before + be32_bytes(chunk.size) + tag@.subrange(0, k as int),
                decreases tag@.len() - k,
            {
                out.push(tag[k]);
                k = k + 1;
                assert(out@ =~= before + be32_bytes(chunk.size) + tag@.subrange(0, k as int));
            }
            let mut k: usize = 0;
            while k < chunk.data.len()
                invariant
                    k <= chunk.data@.len(),
                    out@ == before + be32_bytes(chunk.size) + tag@ + chunk.data@.subrange(0, k as int),
                decreases chunk.data@.len() - k,
            {
                out.push(chunk.data[k]);
                k = k + 1;
                assert(out@ =~= before + be32_bytes(chunk.size) + tag@ + chunk.data@.subrange(0, k as int));
            }
            assert(tag@.subrange(0, tag@.len() as int) =~= tag@);
            assert(chunk.data@.subrange(0, chunk.data@.len() as int) =~= chunk.data@);
            let crc: u32 = match mode {
                CrcMode::Verbatim => chunk.crc,
                CrcMode::Recomputed => {
                    let end: usize = out.len();
                    assert(out@.subrange(tag_start as int, end as int) =~= tag@ + chunk.data@);
                    table.compute(slice_subrange(out.as_slice(), tag_start, end))
                },
            };
            push_be32(&mut out, crc);
            proof {
                assert(cs[i as int] == chunk@);
                lemma_chunks_bytes_push(cs.take(i as int), cs[i as int], mode);
                assert(cs.take(i as int).push(cs[i as int]) =~= cs.take(i + 1));
                assert(out@ =~= before + chunk_bytes(chunk@, mode));
            }
            i = i + 1;
        }
        assert(cs.take(i as int) =~= cs);
        out
    }
}

} // verus!
