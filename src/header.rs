//! The header chunk's thirteen bytes as image properties.
use vstd::prelude::*;

use crate::bytes::{be32, read_be32};
use crate::chunk::{ihdr_tag, is_ihdr, ChunkModel, PNGChunk};
use crate::error::{HeaderField, PngError};
use crate::png::PngImage;

verus! {

#[derive(Clone, Copy, Debug, PartialEq, Eq)]
pub struct PNGInfo {
    pub width: u32,
    pub height: u32,
    pub bit_depth: u8,
    pub color_type: u8,
    pub compression_method: u8,
    pub filter_method: u8,
    pub interlace_method: u8,
}

/// Grayscale, truecolor, palette, grayscale with alpha, truecolor with alpha.
pub open spec fn known_color_type(color_type: u8) -> bool {
    color_type == 0 || color_type == 2 || color_type == 3 || color_type == 4 || color_type == 6
}

/// The bit depths that the format permits for each color type.
pub open spec fn permitted_bit_depth(color_type: u8, bit_depth: u8) -> bool {
    if color_type == 0 {
        bit_depth == 1 || bit_depth == 2 || bit_depth == 4 || bit_depth == 8 || bit_depth == 16
    } else if color_type == 3 {
        bit_depth == 1 || bit_depth == 2 || bit_depth == 4 || bit_depth == 8
    } else {
        bit_depth == 8 || bit_depth == 16
    }
}

/// The fields of a thirteen-byte header payload, in stream order.
pub open spec fn info_of(d: Seq<u8>) -> PNGInfo {
    PNGInfo {
        width: be32(d, 0),
        height: be32(d, 4),
        bit_depth: d[8],
        color_type: d[9],
        compression_method: d[10],
        filter_method: d[11],
        interlace_method: d[12],
    }
}

/// The header interpretation of a chunk, or the first field that rules it out.
pub open spec fn header_spec(c: ChunkModel) -> Result<PNGInfo, HeaderField> {
    if c.tag != ihdr_tag() {
        Err(HeaderField::ChunkType)
    } else if c.data.len() != 13 {
        Err(HeaderField::PayloadLength)
    } else {
        let i = info_of(c.data);
        if i.width == 0 {
            Err(HeaderField::Width)
        } else if i.height == 0 {
            Err(HeaderField::Height)
        } else if !known_color_type(i.color_type) {
            Err(HeaderField::ColorType)
        } else if !permitted_bit_depth(i.color_type, i.bit_depth) {
            Err(HeaderField::BitDepth)
        } else if i.compression_method != 0 {
            Err(HeaderField::CompressionMethod)
        } else if i.filter_method != 0 {
            Err(HeaderField::FilterMethod)
        } else if i.interlace_method > 1 {
            Err(HeaderField::InterlaceMethod)
        } else {
            Ok(i)
        }
    }
}

fn bit_depth_permitted(color_type: u8, bit_depth: u8) -> (r: bool)
    ensures
        r == permitted_bit_depth(color_type, bit_depth),
{
    if color_type == 0 {
        bit_depth == 1 || bit_depth == 2 || bit_depth == 4 || bit_depth == 8 || bit_depth == 16
    } else if color_type == 3 {
        bit_depth == 1 || bit_depth == 2 || bit_depth == 4 || bit_depth == 8
    } else {
        bit_depth == 8 || bit_depth == 16
    }
}

impl PngImage {
    /// Decodes and checks the header chunk's payload.
    pub fn get_png_info(header_chunk: &PNGChunk) -> (r: Result<PNGInfo, PngError>)
        ensures
            match r {
                Ok(info) => header_spec(header_chunk@) == Ok::<PNGInfo, HeaderField>(info),
                Err(e) => exists|f: HeaderField|
                    header_spec(header_chunk@) == Err::<PNGInfo, HeaderField>(f)
                        && e == (PngError::MalformedHeader { field: f }),
            },
    {
        let tag = header_chunk.chunk_type.as_str().as_bytes();
        if !is_ihdr(tag) {
            return Err(PngError::MalformedHeader { field: HeaderField::ChunkType });
        }
        let d = header_chunk.data.as_slice();
        if d.len() != 13 {
            return Err(PngError::MalformedHeader { field: HeaderField::PayloadLength });
        }
        let info = PNGInfo {
            width: read_be32(d, 0),
            height: read_be32(d, 4),
            bit_depth: d[8],
            color_type: d[9],
            compression_method: d[10],
            filter_method: d[11],
            interlace_method: d[12],
        };
        let field = if info.width == 0 {
            HeaderField::Width
        } else if info.height == 0 {
            HeaderField::Height
        } else if !(info.color_type == 0 || info.color_type == 2 || info.color_type == 3
            || info.color_type == 4 || info.color_type == 6) {
            HeaderField::ColorType
        } else if !bit_depth_permitted(info.color_type, info.bit_depth) {
            HeaderField::BitDepth
        } else if info.compression_method != 0 {
            HeaderField::CompressionMethod
        } else if info.filter_method != 0 {
            HeaderField::FilterMethod
        } else if info.interlace_method > 1 {
            HeaderField::InterlaceMethod
        } else {
            return Ok(info);
        };
        Err(PngError::MalformedHeader { field })
    }
}

} // verus!
