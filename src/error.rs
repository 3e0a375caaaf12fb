//! Failures of parsing, header interpretation and writing.
use vstd::prelude::*;
use vstd::string::StringExecFns;
use vstd::utf8::encode_utf8;

verus! {

/// The framing field of a chunk that the input ended in.
#[derive(Clone, Copy, Debug, PartialEq, Eq)]
pub enum ChunkField {
    Length,
    Type,
    Payload,
    Crc,
}

/// The part of the header chunk that was rejected.
#[derive(Clone, Copy, Debug, PartialEq, Eq)]
pub enum HeaderField {
    ChunkType,
    PayloadLength,
    Width,
    Height,
    ColorType,
    BitDepth,
    CompressionMethod,
    FilterMethod,
    InterlaceMethod,
}

/// Why a container could not be parsed, interpreted or written.
#[derive(Debug)]
pub enum PngError {
    /// The first eight bytes are missing or are not the PNG signature.
    InvalidSignature,
    /// The input ended inside the given part of chunk `index`.
    TruncatedChunk { index: usize, part: ChunkField },
    /// The type bytes of chunk `index` do not decode as text.
    InvalidChunkType { index: usize },
    /// The stored CRC of chunk `index` differs from the CRC of its type and payload.
    ChecksumMismatch { index: usize, chunk_type: String },
    /// The header chunk has the wrong type, the wrong length or a field out of range.
    MalformedHeader { field: HeaderField },
    /// Reading or writing the bytes failed.
    IoFailure,
}

/// What a `PngError` says, with the chunk type as its bytes.
pub ghost enum PngErrorView {
    InvalidSignature,
    TruncatedChunk { index: nat, part: ChunkField },
    InvalidChunkType { index: nat },
    ChecksumMismatch { index: nat, tag: Seq<u8> },
    MalformedHeader { field: HeaderField },
    IoFailure,
}

impl View for PngError {
    type V = PngErrorView;

    open spec fn view(&self) -> PngErrorView {
        match self {
            PngError::InvalidSignature => PngErrorView::InvalidSignature,
            PngError::TruncatedChunk { index, part } => PngErrorView::TruncatedChunk {
                index: *index as nat,
                part: *part,
            },
            PngError::InvalidChunkType { index } => PngErrorView::InvalidChunkType {
                index: *index as nat,
            },
            PngError::ChecksumMismatch { index, chunk_type } => PngErrorView::ChecksumMismatch {
                index: *index as nat,
                tag: encode_utf8(chunk_type@),
            },
            PngError::MalformedHeader { field } => PngErrorView::MalformedHeader { field: *field },
            PngError::IoFailure => PngErrorView::IoFailure,
        }
    }
}

pub open spec fn digit_chars() -> Seq<char> {
    seq!['0', '1', '2', '3', '4', '5', '6', '7', '8', '9']
}

/// The decimal digits of `n`.
pub open spec fn decimal(n: nat) -> Seq<char>
    decreases n,
{
    if n < 10 {
        seq![digit_chars()[n as int]]
    } else {
        decimal(n / 10) + seq![digit_chars()[(n % 10) as int]]
    }
}

pub open spec fn chunk_field_name(f: ChunkField) -> Seq<char> {
    match f {
        ChunkField::Length => "length"@,
        ChunkField::Type => "type"@,
        ChunkField::Payload => "payload"@,
        ChunkField::Crc => "crc"@,
    }
}

pub open spec fn header_field_name(f: HeaderField) -> Seq<char> {
    match f {
        HeaderField::ChunkType => "chunk type"@,
        HeaderField::PayloadLength => "payload length"@,
        HeaderField::Width => "width"@,
        HeaderField::Height => "height"@,
        HeaderField::ColorType => "color type"@,
        HeaderField::BitDepth => "bit depth"@,
        HeaderField::CompressionMethod => "compression method"@,
        HeaderField::FilterMethod => "filter method"@,
        HeaderField::InterlaceMethod => "interlace method"@,
    }
}

/// The human-readable rendering of an error.
pub open spec fn message(e: &PngError) -> Seq<char> {
    match e {
        PngError::InvalidSignature => "invalid signature"@,
        PngError::TruncatedChunk { index, part } => "chunk "@ + decimal(*index as nat)
            + " is truncated in its "@ + chunk_field_name(*part),
        PngError::InvalidChunkType { index } => "chunk "@ + decimal(*index as nat)
            + " has a type that is not text"@,
        PngError::ChecksumMismatch { index, chunk_type } => "checksum mismatch in chunk "@
            + decimal(*index as nat) + " ("@ + chunk_type@ + ")"@,
        PngError::MalformedHeader { field } => "malformed header: "@ + header_field_name(*field),
        PngError::IoFailure => "input or output failed"@,
    }
}

fn digit_text(d: usize) -> (r: &'static str)
    requires
        d < 10,
    ensures
        r@ == seq![digit_chars()[d as int]],
{
    proof {
        reveal_strlit("0");
        reveal_strlit("1");
        reveal_strlit("2");
        reveal_strlit("3");
        reveal_strlit("4");
        reveal_strlit("5");
        reveal_strlit("6");
        reveal_strlit("7");
        reveal_strlit("8");
        reveal_strlit("9");
    }
    let r = match d {
        0 => "0",
        1 => "1",
        2 => "2",
        3 => "3",
        4 => "4",
        5 => "5",
        6 => "6",
        7 => "7",
        8 => "8",
        _ => "9",
    };
    assert(r@ =~= seq![digit_chars()[d as int]]);
    r
}

/// Appends the decimal digits of `n`.
fn push_decimal(s: &mut String, n: usize)
    ensures
        final(s)@ == old(s)@ + decimal(n as nat),
    decreases n,
{
    if n >= 10 {
        push_decimal(s, n / 10);
    }
    s.append(digit_text(n % 10));
    assert(s@ =~= old(s)@ + decimal(n as nat));
}

fn chunk_field_text(f: ChunkField) -> (r: &'static str)
    ensures
        r@ == chunk_field_name(f),
{
    match f {
        ChunkField::Length => "length",
        ChunkField::Type => "type",
        ChunkField::Payload => "payload",
        ChunkField::Crc => "crc",
    }
}

fn header_field_text(f: HeaderField) -> (r: &'static str)
    ensures
        r@ == header_field_name(f),
{
    match f {
        HeaderField::ChunkType => "chunk type",
        HeaderField::PayloadLength => "payload length",
        HeaderField::Width => "width",
        HeaderField::Height => "height",
        HeaderField::ColorType => "color type",
        HeaderField::BitDepth => "bit depth",
        HeaderField::CompressionMethod => "compression method",
        HeaderField::FilterMethod => "filter method",
        HeaderField::InterlaceMethod => "interlace method",
    }
}

impl PngError {
    /// A human-readable description of the error.
    pub fn get_message(&self) -> (r: String)
        ensures
            r@ == message(self),
    {
        let mut s = String::new();
        match self {
            PngError::InvalidSignature => s.append("invalid signature"),
            PngError::TruncatedChunk { index, part } => {
                s.append("chunk ");
                push_decimal(&mut s, *index);
                s.append(" is truncated in its ");
                s.append(chunk_field_text(*part));
            },
            PngError::InvalidChunkType { index } => {
                s.append("chunk ");
                push_decimal(&mut s, *index);
                s.append(" has a type that is not text");
            },
            PngError::ChecksumMismatch { index, chunk_type } => {
                s.append("checksum mismatch in chunk ");
                push_decimal(&mut s, *index);
                s.append(" (");
                s.append(chunk_type.as_str());
                s.append(")");
            },
            PngError::MalformedHeader { field } => {
                s.append("malformed header: ");
                s.append(header_field_text(*field));
            },
            PngError::IoFailure => s.append("input or output failed"),
        }
        assert(s@ =~= message(self));
        s
    }
}

} // verus!
