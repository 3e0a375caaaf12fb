//! Properties that relate parsing and serialization.
use vstd::prelude::*;
use vstd::utf8::valid_utf8;

use crate::bytes::{be32, be32_bytes, lemma_be32_of_bytes, lemma_bytes_of_be32};
use crate::chunk::{iend_tag, ihdr_tag, ChunkModel};
use crate::crc::{crc32, lemma_crc_detects_byte_change};
use crate::error::PngErrorView;
use crate::header::header_spec;
use crate::png::{chunk_bytes, chunks_bytes, parse_chunks, parse_png, png_bytes, CrcMode};

verus! {

/// A chunk whose framing is consistent: the declared length is the payload's, and the
/// type tag is four bytes of text.
pub open spec fn chunk_framed(c: ChunkModel) -> bool {
    &&& c.size as nat == c.data.len()
    &&& c.tag.len() == 4
    &&& valid_utf8(c.tag)
}

/// The stored CRC of a chunk is the CRC of its type and payload.
pub open spec fn crc_matches(c: ChunkModel) -> bool {
    c.crc == crc32(c.tag + c.data)
}

/// The header chunk comes first, the terminator last, and no chunk before the last is
/// a terminator.
pub open spec fn chunks_ordered(cs: Seq<ChunkModel>) -> bool {
    &&& cs.len() > 0
    &&& cs[0].tag == ihdr_tag()
    &&& cs.last().tag == iend_tag()
    &&& forall|i: int| 0 <= i < cs.len() - 1 ==> #[trigger] cs[i].tag != iend_tag()
}

/// What a run of chunks framed from a stream satisfies: every chunk is framed and
/// verified, the run ends at its one terminator, and its records are the stream's bytes
/// from `pos` on.
pub open spec fn framed_run(b: Seq<u8>, pos: int, cs: Seq<ChunkModel>) -> bool {
    &&& cs.len() > 0
    &&& cs.last().tag == iend_tag()
    &&& forall|i: int| 0 <= i < cs.len() - 1 ==> #[trigger] cs[i].tag != iend_tag()
    &&& forall|i: int| 0 <= i < cs.len() ==> chunk_framed(#[trigger] cs[i]) && crc_matches(cs[i])
    &&& pos + chunks_bytes(cs, CrcMode::Verbatim).len() <= b.len()
    &&& b.subrange(pos, pos + chunks_bytes(cs, CrcMode::Verbatim).len()) == chunks_bytes(
        cs,
        CrcMode::Verbatim,
    )
}

proof fn lemma_chunks_bytes_single(c: ChunkModel, mode: CrcMode)
    ensures
        chunks_bytes(seq![c], mode) == chunk_bytes(c, mode),
{
    assert(seq![c].drop_first() =~= Seq::<ChunkModel>::empty());
    assert(chunks_bytes(Seq::<ChunkModel>::empty(), mode) == Seq::<u8>::empty());
    assert(chunks_bytes(seq![c], mode) =~= chunk_bytes(c, mode));
}

/// The chunk that `parse_chunks` frames at `pos`, when the stream holds all of it.
proof fn lemma_chunk_at(b: Seq<u8>, pos: int)
    requires
        0 <= pos,
        pos + 12 + be32(b, pos) <= b.len(),
    ensures
        ({
            let size = be32(b, pos);
            let c = ChunkModel {
                size,
                tag: b.subrange(pos + 4, pos + 8),
                data: b.subrange(pos + 8, pos + 8 + size),
                crc: be32(b, pos + 8 + size),
            };
            b.subrange(pos, pos + 12 + size) == chunk_bytes(c, CrcMode::Verbatim)
        }),
{
    let size = be32(b, pos);
    lemma_bytes_of_be32(b, pos);
    lemma_bytes_of_be32(b, pos + 8 + size);
    let c = ChunkModel {
        size,
        tag: b.subrange(pos + 4, pos + 8),
        data: b.subrange(pos + 8, pos + 8 + size),
        crc: be32(b, pos + 8 + size),
    };
    assert(b.subrange(pos, pos + 12 + size) =~= chunk_bytes(c, CrcMode::Verbatim));
}

/// A successful run of `parse_chunks` is a framed run.
pub proof fn lemma_parse_chunks_framed(b: Seq<u8>, pos: int, index: nat)
    requires
        parse_chunks(b, pos, index) is Ok,
    ensures
        framed_run(b, pos, parse_chunks(b, pos, index)->Ok_0),
    decreases b.len() - pos,
{
    let cs = parse_chunks(b, pos, index)->Ok_0;
    let size = be32(b, pos);
    let tag = b.subrange(pos + 4, pos + 8);
    let data = b.subrange(pos + 8, pos + 8 + size);
    let c = ChunkModel { size, tag, data, crc: be32(b, pos + 8 + size) };
    lemma_chunk_at(b, pos);
    let n = 12 + size;
    if tag == iend_tag() {
        assert(cs == seq![c]);
        lemma_chunks_bytes_single(c, CrcMode::Verbatim);
    } else {
        let rest = parse_chunks(b, pos + n, index + 1)->Ok_0;
        lemma_parse_chunks_framed(b, pos + n, index + 1);
        assert(cs == seq![c] + rest);
        assert(cs.drop_first() =~= rest);
        let m = chunks_bytes(rest, CrcMode::Verbatim).len() as int;
        assert(chunks_bytes(cs, CrcMode::Verbatim) == chunk_bytes(c, CrcMode::Verbatim)
            + chunks_bytes(rest, CrcMode::Verbatim));
        assert(b.subrange(pos, pos + n + m) =~= b.subrange(pos, pos + n) + b.subrange(
            pos + n,
            pos + n + m,
        ));
        assert forall|i: int| 0 <= i < cs.len() - 1 implies #[trigger] cs[i].tag != iend_tag() by {
            if i > 0 {
                assert(cs[i] == rest[i - 1]);
            }
        }
        assert forall|i: int| 0 <= i < cs.len() implies chunk_framed(#[trigger] cs[i])
            && crc_matches(cs[i]) by {
            if i > 0 {
                assert(cs[i] == rest[i - 1]);
            }
        }
    }
}

/// Every container that parses has its header chunk first and its terminator last,
/// with no terminator before it, and every chunk's CRC verifies.
pub proof fn lemma_parsed_order(b: Seq<u8>)
    requires
        parse_png(b) is Ok,
    ensures
        chunks_ordered(parse_png(b)->Ok_0),
        forall|i: int|
            0 <= i < parse_png(b)->Ok_0.len() ==> #[trigger] crc_matches(parse_png(b)->Ok_0[i]),
{
    lemma_parse_chunks_framed(b, 8, 0);
    let cs = parse_png(b)->Ok_0;
    assert(header_spec(cs[0]) is Ok);
    assert forall|i: int| 0 <= i < cs.len() implies #[trigger] crc_matches(cs[i]) by {
        assert(chunk_framed(cs[i]) && crc_matches(cs[i]));
    }
}

/// Serializing a parsed container with its stored CRCs gives back the input bytes up to
/// the end of the terminator chunk: all of them when nothing follows the terminator.
pub proof fn lemma_round_trip(b: Seq<u8>)
    requires
        parse_png(b) is Ok,
    ensures
        ({
            let out = png_bytes(parse_png(b)->Ok_0, CrcMode::Verbatim);
            &&& out.len() <= b.len()
            &&& out == b.subrange(0, out.len() as int)
            &&& out.len() == b.len() ==> out == b
        }),
{
    lemma_parse_chunks_framed(b, 8, 0);
    let cs = parse_png(b)->Ok_0;
    let out = png_bytes(cs, CrcMode::Verbatim);
    let m = chunks_bytes(cs, CrcMode::Verbatim).len() as int;
    assert(b.subrange(0, 8 + m) =~= b.subrange(0, 8) + b.subrange(8, 8 + m));
    assert(out == b.subrange(0, out.len() as int));
    if out.len() == b.len() {
        assert(b.subrange(0, b.len() as int) =~= b);
    }
}

/// A stream whose first eight bytes are not the signature, or which has fewer, is
/// rejected as having an invalid signature, whatever follows.
pub proof fn lemma_signature_rejected(b: Seq<u8>)
    requires
        b.len() < 8 || b.subrange(0, 8) != crate::chunk::signature(),
    ensures
        parse_png(b) == Err::<Seq<ChunkModel>, PngErrorView>(PngErrorView::InvalidSignature),
{
}

/// What a container holds in memory for its serialization to parse: consistent framing
/// in every chunk, the chunks in order, and a header chunk whose fields are in range.
pub open spec fn container_valid(cs: Seq<ChunkModel>) -> bool {
    &&& chunks_ordered(cs)
    &&& forall|i: int| 0 <= i < cs.len() ==> chunk_framed(#[trigger] cs[i])
    &&& header_spec(cs[0]) is Ok
}

/// The chunk with its stored CRC replaced by the CRC of its type and payload.
pub open spec fn with_recomputed_crc(c: ChunkModel) -> ChunkModel {
    ChunkModel { size: c.size, tag: c.tag, data: c.data, crc: crc32(c.tag + c.data) }
}

/// Every chunk with its CRC recomputed.
pub open spec fn recomputed(cs: Seq<ChunkModel>) -> Seq<ChunkModel> {
    cs.map_values(|c: ChunkModel| with_recomputed_crc(c))
}

proof fn lemma_parse_recomputed(b: Seq<u8>, pos: int, index: nat, cs: Seq<ChunkModel>)
    requires
        0 <= pos,
        cs.len() > 0,
        forall|i: int| 0 <= i < cs.len() ==> chunk_framed(#[trigger] cs[i]),
        cs.last().tag == iend_tag(),
        forall|i: int| 0 <= i < cs.len() - 1 ==> #[trigger] cs[i].tag != iend_tag(),
        pos + chunks_bytes(cs, CrcMode::Recomputed).len() <= b.len(),
        b.subrange(pos, pos + chunks_bytes(cs, CrcMode::Recomputed).len()) == chunks_bytes(
            cs,
            CrcMode::Recomputed,
        ),
    ensures
        parse_chunks(b, pos, index) == Ok::<Seq<ChunkModel>, PngErrorView>(recomputed(cs)),
    decreases cs.len(),
{
    let mode = CrcMode::Recomputed;
    let c = cs[0];
    let rest = cs.drop_first();
    assert(chunk_framed(cs[0]));
    let size = c.size;
    let crc = crc32(c.tag + c.data);
    let cb = chunk_bytes(c, mode);
    let n = 12 + size;
    let m = chunks_bytes(rest, mode).len() as int;
    assert(chunks_bytes(cs, mode) == cb + chunks_bytes(rest, mode));
    assert(cb.len() == n);
    assert(b.subrange(pos, pos + n) =~= cb) by {
        assert forall|k: int| 0 <= k < n implies b.subrange(pos, pos + n)[k] == cb[k] by {
            assert(b.subrange(pos, pos + n + m)[k] == chunks_bytes(cs, mode)[k]);
        }
    }
    let lb = be32_bytes(size);
    let cr = be32_bytes(crc);
    assert(b[pos] == lb[0] && b[pos + 1] == lb[1] && b[pos + 2] == lb[2] && b[pos + 3] == lb[3])
        by {
        assert(b.subrange(pos, pos + n)[0] == cb[0]);
        assert(b.subrange(pos, pos + n)[1] == cb[1]);
        assert(b.subrange(pos, pos + n)[2] == cb[2]);
        assert(b.subrange(pos, pos + n)[3] == cb[3]);
    }
    lemma_be32_of_bytes(size);
    assert(be32(b, pos) == size);
    let q = pos + 8 + size;
    assert(b[q] == cr[0] && b[q + 1] == cr[1] && b[q + 2] == cr[2] && b[q + 3] == cr[3]) by {
        assert(b.subrange(pos, pos + n)[8 + size] == cb[8 + size]);
        assert(b.subrange(pos, pos + n)[9 + size] == cb[9 + size]);
        assert(b.subrange(pos, pos + n)[10 + size] == cb[10 + size]);
        assert(b.subrange(pos, pos + n)[11 + size] == cb[11 + size]);
    }
    lemma_be32_of_bytes(crc);
    assert(be32(b, q) == crc);
    assert(b.subrange(pos + 4, pos + 8) =~= c.tag) by {
        assert forall|k: int| 0 <= k < 4 implies b.subrange(pos + 4, pos + 8)[k] == c.tag[k] by {
            assert(b.subrange(pos, pos + n)[4 + k] == cb[4 + k]);
        }
    }
    assert(b.subrange(pos + 8, q) =~= c.data) by {
        assert forall|k: int| 0 <= k < size implies b.subrange(pos + 8, q)[k] == c.data[k] by {
            assert(b.subrange(pos, pos + n)[8 + k] == cb[8 + k]);
        }
    }
    let mapped = cs.map_values(|c: ChunkModel| with_recomputed_crc(c));
    if c.tag == iend_tag() {
        assert(cs.len() == 1);
        assert(mapped =~= seq![with_recomputed_crc(c)]);
    } else {
        assert(rest.len() > 0);
        assert(b.subrange(pos + n, pos + n + m) =~= chunks_bytes(rest, mode)) by {
            assert forall|k: int| 0 <= k < m implies b.subrange(pos + n, pos + n + m)[k]
                == chunks_bytes(rest, mode)[k] by {
                assert(b.subrange(pos, pos + n + m)[n + k] == chunks_bytes(cs, mode)[n + k]);
            }
        }
        assert forall|i: int| 0 <= i < rest.len() implies chunk_framed(#[trigger] rest[i]) by {
            assert(rest[i] == cs[i + 1]);
        }
        assert forall|i: int| 0 <= i < rest.len() - 1 implies #[trigger] rest[i].tag
            != iend_tag() by {
            assert(rest[i] == cs[i + 1]);
        }
        lemma_parse_recomputed(b, pos + n, index + 1, rest);
        assert(mapped =~= seq![with_recomputed_crc(c)] + recomputed(rest));
    }
}

/// Serializing any valid container with recomputed CRCs gives a stream that parses back
/// to the same chunks, each now carrying the CRC of its type and payload, so every
/// checksum verifies.
pub proof fn lemma_recomputed_round_trip(cs: Seq<ChunkModel>)
    requires
        container_valid(cs),
    ensures
        parse_png(png_bytes(cs, CrcMode::Recomputed)) == Ok::<Seq<ChunkModel>, PngErrorView>(
            recomputed(cs),
        ),
        forall|i: int| 0 <= i < cs.len() ==> #[trigger] crc_matches(recomputed(cs)[i]),
{
    let b = png_bytes(cs, CrcMode::Recomputed);
    let m = chunks_bytes(cs, CrcMode::Recomputed).len() as int;
    assert(b.subrange(0, 8) =~= crate::chunk::signature());
    assert(b.subrange(8, 8 + m) =~= chunks_bytes(cs, CrcMode::Recomputed));
    lemma_parse_recomputed(b, 8, 0, cs);
    let mapped = cs.map_values(|c: ChunkModel| with_recomputed_crc(c));
    assert(mapped[0].tag == cs[0].tag && mapped[0].data == cs[0].data);
    assert(header_spec(mapped[0]) == header_spec(cs[0]));
}

proof fn lemma_truncated_chunks(b: Seq<u8>, pos: int, index: nat, k: int)
    requires
        parse_chunks(b, pos, index) is Ok,
        0 <= pos <= k,
        k < pos + chunks_bytes(parse_chunks(b, pos, index)->Ok_0, CrcMode::Verbatim).len(),
    ensures
        parse_chunks(b.take(k), pos, index) is Err,
        parse_chunks(b.take(k), pos, index)->Err_0 is TruncatedChunk,
    decreases b.len() - pos,
{
    lemma_parse_chunks_framed(b, pos, index);
    let t = b.take(k);
    let cs = parse_chunks(b, pos, index)->Ok_0;
    let size = be32(b, pos);
    let n = 12 + size;
    if k >= pos + 4 {
        assert(t[pos] == b[pos] && t[pos + 1] == b[pos + 1] && t[pos + 2] == b[pos + 2] && t[pos
            + 3] == b[pos + 3]);
        assert(be32(t, pos) == size);
    }
    if k >= pos + 8 {
        assert(t.subrange(pos + 4, pos + 8) =~= b.subrange(pos + 4, pos + 8));
    }
    if k >= pos + n {
        let q = pos + 8 + size;
        assert(t.subrange(pos + 8, q) =~= b.subrange(pos + 8, q));
        assert(t[q] == b[q] && t[q + 1] == b[q + 1] && t[q + 2] == b[q + 2] && t[q + 3] == b[q
            + 3]);
        assert(be32(t, q) == be32(b, q));
        let tag = b.subrange(pos + 4, pos + 8);
        let c = ChunkModel {
            size,
            tag,
            data: b.subrange(pos + 8, q),
            crc: be32(b, q),
        };
        if tag == iend_tag() {
            assert(cs == seq![c]);
            lemma_chunks_bytes_single(c, CrcMode::Verbatim);
            assert(false);
        } else {
            let rest = parse_chunks(b, pos + n, index + 1)->Ok_0;
            assert(cs == seq![c] + rest);
            assert(cs.drop_first() =~= rest);
            assert(chunks_bytes(cs, CrcMode::Verbatim) == chunk_bytes(c, CrcMode::Verbatim)
                + chunks_bytes(rest, CrcMode::Verbatim));
            lemma_truncated_chunks(b, pos + n, index + 1, k);
            assert(t.take(k) =~= t);
            assert(b.take(k) == t);
        }
    }
}

/// Cutting a container that parses at any offset from the end of the signature up to,
/// but not including, the end of its terminator's CRC makes it fail as truncated.
pub proof fn lemma_truncation_detected(b: Seq<u8>, k: int)
    requires
        parse_png(b) is Ok,
        8 <= k < png_bytes(parse_png(b)->Ok_0, CrcMode::Verbatim).len(),
    ensures
        parse_png(b.take(k)) is Err,
        parse_png(b.take(k))->Err_0 is TruncatedChunk,
{
    lemma_parse_chunks_framed(b, 8, 0);
    assert(b.take(k).subrange(0, 8) =~= b.subrange(0, 8));
    lemma_truncated_chunks(b, 8, 0, k);
}

/// Where the payload of chunk `i` of a run framed from `pos` starts.
pub open spec fn payload_start(cs: Seq<ChunkModel>, pos: int, i: int) -> int {
    pos + chunks_bytes(cs.take(i), CrcMode::Verbatim).len() + 8
}

proof fn lemma_payload_change(b: Seq<u8>, pos: int, index: nat, i: int, j: int, v: u8)
    requires
        parse_chunks(b, pos, index) is Ok,
        0 <= pos,
        0 <= i < parse_chunks(b, pos, index)->Ok_0.len(),
        0 <= j < parse_chunks(b, pos, index)->Ok_0[i].data.len(),
        v != b[payload_start(parse_chunks(b, pos, index)->Ok_0, pos, i) + j],
    ensures
        ({
            let cs = parse_chunks(b, pos, index)->Ok_0;
            let off = payload_start(cs, pos, i) + j;
            &&& pos + 8 <= off < b.len()
            &&& parse_chunks(b.update(off, v), pos, index) == Err::<Seq<ChunkModel>, PngErrorView>(
                PngErrorView::ChecksumMismatch { index: index + i as nat, tag: cs[i].tag },
            )
        }),
    decreases i,
{
    lemma_parse_chunks_framed(b, pos, index);
    let cs = parse_chunks(b, pos, index)->Ok_0;
    let off = payload_start(cs, pos, i) + j;
    let t = b.update(off, v);
    let size = be32(b, pos);
    let n = 12 + size;
    let q = pos + 8 + size;
    let tag = b.subrange(pos + 4, pos + 8);
    let data = b.subrange(pos + 8, q);
    let c = ChunkModel { size, tag, data, crc: be32(b, q) };
    assert(cs[0] == c);
    if i == 0 {
        assert(cs.take(0) =~= Seq::<ChunkModel>::empty());
        assert(off == pos + 8 + j);
        assert(t[pos] == b[pos] && t[pos + 1] == b[pos + 1] && t[pos + 2] == b[pos + 2] && t[pos
            + 3] == b[pos + 3]);
        assert(be32(t, pos) == size);
        assert(t.subrange(pos + 4, pos + 8) =~= tag);
        assert(t.subrange(pos + 8, q) =~= data.update(j, v));
        assert(t[q] == b[q] && t[q + 1] == b[q + 1] && t[q + 2] == b[q + 2] && t[q + 3] == b[q
            + 3]);
        assert(be32(t, q) == be32(b, q));
        assert(tag + data.update(j, v) =~= (tag + data).update(4 + j, v));
        lemma_crc_detects_byte_change(tag + data, 4 + j, v);
    } else {
        let rest = parse_chunks(b, pos + n, index + 1)->Ok_0;
        assert(tag != iend_tag());
        assert(cs == seq![c] + rest);
        assert(cs.take(i).drop_first() =~= rest.take(i - 1));
        assert(cs.take(i)[0] == c);
        assert(chunk_bytes(c, CrcMode::Verbatim).len() == n);
        assert(chunks_bytes(cs.take(i), CrcMode::Verbatim) == chunk_bytes(c, CrcMode::Verbatim)
            + chunks_bytes(rest.take(i - 1), CrcMode::Verbatim));
        assert(payload_start(cs, pos, i) == payload_start(rest, pos + n, i - 1));
        assert(rest[i - 1] == cs[i]);
        lemma_payload_change(b, pos + n, index + 1, i - 1, j, v);
        assert(t[pos] == b[pos] && t[pos + 1] == b[pos + 1] && t[pos + 2] == b[pos + 2] && t[pos
            + 3] == b[pos + 3]);
        assert(be32(t, pos) == size);
        assert(t.subrange(pos + 4, pos + 8) =~= tag);
        assert(t.subrange(pos + 8, q) =~= data);
        assert(t[q] == b[q] && t[q + 1] == b[q + 1] && t[q + 2] == b[q + 2] && t[q + 3] == b[q
            + 3]);
        assert(be32(t, q) == be32(b, q));
    }
}

/// Flipping any one bit inside the payload of chunk `i` of a container that parses,
/// leaving its stored CRC as it was, makes parsing fail with a checksum mismatch that
/// names chunk `i` and its type.
pub proof fn lemma_bit_flip_detected(b: Seq<u8>, i: int, j: int, bit: u8)
    requires
        parse_png(b) is Ok,
        0 <= i < parse_png(b)->Ok_0.len(),
        0 <= j < parse_png(b)->Ok_0[i].data.len(),
        bit < 8,
    ensures
        ({
            let cs = parse_png(b)->Ok_0;
            let off = payload_start(cs, 8, i) + j;
            parse_png(b.update(off, b[off] ^ (1u8 << bit))) == Err::<
                Seq<ChunkModel>,
                PngErrorView,
            >(PngErrorView::ChecksumMismatch { index: i as nat, tag: cs[i].tag })
        }),
{
    let cs = parse_png(b)->Ok_0;
    let off = payload_start(cs, 8, i) + j;
    let x = b[off];
    let v = x ^ (1u8 << bit);
    assert(bit < 8 ==> x ^ (1u8 << bit) != x) by (bit_vector);
    lemma_payload_change(b, 8, 0, i, j, v);
    assert(b.update(off, v).subrange(0, 8) =~= b.subrange(0, 8));
}

} // verus!
