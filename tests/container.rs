use png_container::{
    ChunkCursor, ChunkField, CrcMode, CrcTable, HeaderField, PNGChunk, PNGInfo, PngError,
    PngImage,
};

const SIGNATURE: [u8; 8] = [137, 80, 78, 71, 13, 10, 26, 10];

fn header_payload(width: u32, height: u32, rest: [u8; 5]) -> Vec<u8> {
    let mut p = Vec::new();
    p.extend_from_slice(&width.to_be_bytes());
    p.extend_from_slice(&height.to_be_bytes());
    p.extend_from_slice(&rest);
    p
}

fn chunk(tag: &str, data: Vec<u8>) -> PNGChunk {
    PNGChunk { size: data.len() as u32, chunk_type: tag.to_string(), data, crc: 0 }
}

fn sample_image() -> PngImage {
    PngImage {
        chunks: vec![
            chunk("IHDR", header_payload(100, 50, [8, 2, 0, 0, 0])),
            chunk("IDAT", vec![1, 2, 3, 4, 5, 6, 7, 8, 9]),
            chunk("tEXt", b"Comment\0hello".to_vec()),
            chunk("IDAT", vec![200, 100]),
            chunk("IEND", vec![]),
        ],
    }
}

fn sample_bytes() -> Vec<u8> {
    sample_image().to_bytes(CrcMode::Recomputed)
}

fn record(tag: &[u8; 4], data: &[u8], crc: u32) -> Vec<u8> {
    let mut r = Vec::new();
    r.extend_from_slice(&(data.len() as u32).to_be_bytes());
    r.extend_from_slice(tag);
    r.extend_from_slice(data);
    r.extend_from_slice(&crc.to_be_bytes());
    r
}

fn good_record(tag: &[u8; 4], data: &[u8]) -> Vec<u8> {
    let table = CrcTable::new();
    let mut covered = tag.to_vec();
    covered.extend_from_slice(data);
    record(tag, data, table.compute(&covered))
}

fn container_with_header(payload: &[u8]) -> Vec<u8> {
    let mut b = SIGNATURE.to_vec();
    b.extend(good_record(b"IHDR", payload));
    b.extend(good_record(b"IEND", &[]));
    b
}

#[test]
fn crc_of_standard_check_input() {
    let table = CrcTable::new();
    assert_eq!(table.compute(b"123456789"), 0xCBF4_3926);
    assert_eq!(table.compute(b""), 0);
    assert!(table.verify(b"123456789", 0xCBF4_3926));
    assert!(!table.verify(b"123456789", 0xCBF4_3927));
}

#[test]
fn terminator_chunk_crc() {
    let table = CrcTable::new();
    assert_eq!(table.compute(b"IEND"), 0xAE42_6082);
}

#[test]
fn three_chunk_container_parses() {
    let mut b = SIGNATURE.to_vec();
    b.extend(good_record(b"IHDR", &header_payload(1, 1, [8, 6, 0, 0, 0])));
    b.extend(good_record(b"IDAT", &[7u8; 40]));
    b.extend(good_record(b"IEND", &[]));
    let image = PngImage::new(&b).unwrap();
    assert_eq!(image.chunks.len(), 3);
    assert_eq!(image.chunks[0].size, 13);
    assert_eq!(image.chunks[1].size, 40);
    assert_eq!(image.chunks[2].size, 0);
    assert_eq!(image.chunks[0].chunk_type, "IHDR");
    assert_eq!(image.chunks[1].chunk_type, "IDAT");
    assert_eq!(image.chunks[2].chunk_type, "IEND");
    assert_eq!(image.chunks[2].crc, 0xAE42_6082);
    assert_eq!(image.chunks[1].data, vec![7u8; 40]);
}

#[test]
fn header_extraction() {
    let payload = vec![0, 0, 0, 0x64, 0, 0, 0, 0x32, 8, 2, 0, 0, 0];
    let image = PngImage::new(&container_with_header(&payload)).unwrap();
    let info: PNGInfo = PngImage::get_png_info(&image.chunks[0]).unwrap();
    assert_eq!(info.width, 100);
    assert_eq!(info.height, 50);
    assert_eq!(info.bit_depth, 8);
    assert_eq!(info.color_type, 2);
    assert_eq!(info.compression_method, 0);
    assert_eq!(info.filter_method, 0);
    assert_eq!(info.interlace_method, 0);
}

#[test]
fn verbatim_round_trip_is_identity() {
    let b = sample_bytes();
    let image = PngImage::new(&b).unwrap();
    assert_eq!(image.chunks.len(), 5);
    assert_eq!(image.to_bytes(CrcMode::Verbatim), b);
}

#[test]
fn bytes_after_terminator_are_not_written_back() {
    let mut b = sample_bytes();
    let n = b.len();
    b.extend_from_slice(&[1, 2, 3]);
    let image = PngImage::new(&b).unwrap();
    assert_eq!(image.to_bytes(CrcMode::Verbatim), b[..n].to_vec());
}

#[test]
fn recomputed_mode_repairs_stored_crcs() {
    let mut image = PngImage::new(&sample_bytes()).unwrap();
    image.chunks[1].crc = 12345;
    let stale = image.to_bytes(CrcMode::Verbatim);
    assert!(matches!(
        PngImage::new(&stale),
        Err(PngError::ChecksumMismatch { index: 1, .. })
    ));
    let fresh = image.to_bytes(CrcMode::Recomputed);
    let parsed = PngImage::new(&fresh).unwrap();
    let table = CrcTable::new();
    for c in &parsed.chunks {
        let mut covered = c.chunk_type.as_bytes().to_vec();
        covered.extend_from_slice(&c.data);
        assert!(table.verify(&covered, c.crc));
    }
    assert_eq!(parsed.chunks[4].crc, 0xAE42_6082);
}

#[test]
fn wrong_signature_is_rejected() {
    let mut b = sample_bytes();
    b[0] = 0x88;
    assert!(matches!(PngImage::new(&b), Err(PngError::InvalidSignature)));
    let mut b = sample_bytes();
    b[7] = 0;
    assert!(matches!(PngImage::new(&b), Err(PngError::InvalidSignature)));
    assert!(matches!(PngImage::new(&[]), Err(PngError::InvalidSignature)));
    assert!(matches!(PngImage::new(&SIGNATURE[..7]), Err(PngError::InvalidSignature)));
}

#[test]
fn every_truncation_is_detected() {
    let b = sample_bytes();
    for k in 0..b.len() {
        let r = PngImage::new(&b[..k]);
        if k < 8 {
            assert!(matches!(r, Err(PngError::InvalidSignature)));
        } else {
            assert!(matches!(r, Err(PngError::TruncatedChunk { .. })), "cut at {}", k);
        }
    }
}

#[test]
fn truncation_names_the_part() {
    let b = sample_bytes();
    // the header record spans bytes 8..33
    let part = |k: usize| match PngImage::new(&b[..k]) {
        Err(PngError::TruncatedChunk { index, part }) => (index, part),
        _ => panic!("not truncated"),
    };
    assert_eq!(part(8), (0, ChunkField::Length));
    assert_eq!(part(13), (0, ChunkField::Type));
    assert_eq!(part(20), (0, ChunkField::Payload));
    assert_eq!(part(30), (0, ChunkField::Crc));
    assert_eq!(part(33), (1, ChunkField::Length));
}

#[test]
fn payload_bit_flip_is_detected() {
    let b = sample_bytes();
    // the second chunk's payload starts at 8 + 25 + 8
    for bit in 0..8 {
        let mut c = b.clone();
        c[41 + 3] ^= 1 << bit;
        match PngImage::new(&c) {
            Err(PngError::ChecksumMismatch { index, chunk_type }) => {
                assert_eq!(index, 1);
                assert_eq!(chunk_type, "IDAT");
            }
            _ => panic!("flip not detected"),
        }
    }
}

#[test]
fn undecodable_chunk_type_is_rejected() {
    let mut b = SIGNATURE.to_vec();
    b.extend(good_record(b"IHDR", &header_payload(1, 1, [8, 0, 0, 0, 0])));
    b.extend(good_record(&[0xFF, 0xFE, 0x41, 0x41], &[1]));
    b.extend(good_record(b"IEND", &[]));
    assert!(matches!(PngImage::new(&b), Err(PngError::InvalidChunkType { index: 1 })));
}

#[test]
fn non_letter_chunk_type_is_accepted() {
    let mut b = SIGNATURE.to_vec();
    b.extend(good_record(b"IHDR", &header_payload(1, 1, [8, 0, 0, 0, 0])));
    b.extend(good_record(&[0x01, 0x20, 0x7E, 0x30], &[1, 2]));
    b.extend(good_record(b"IEND", &[]));
    let image = PngImage::new(&b).unwrap();
    assert_eq!(image.chunks[1].chunk_type, "\u{1} ~0");
}

#[test]
fn checksum_mismatch_in_terminator() {
    let mut b = SIGNATURE.to_vec();
    b.extend(good_record(b"IHDR", &header_payload(1, 1, [8, 0, 0, 0, 0])));
    b.extend(record(b"IEND", &[], 0));
    assert!(matches!(
        PngImage::new(&b),
        Err(PngError::ChecksumMismatch { index: 1, .. })
    ));
}

#[test]
fn first_chunk_must_be_header() {
    let mut b = SIGNATURE.to_vec();
    b.extend(good_record(b"IDAT", &[1, 2]));
    b.extend(good_record(b"IEND", &[]));
    assert!(matches!(
        PngImage::new(&b),
        Err(PngError::MalformedHeader { field: HeaderField::ChunkType })
    ));
}

fn header_error(payload: &[u8]) -> HeaderField {
    match PngImage::new(&container_with_header(payload)) {
        Err(PngError::MalformedHeader { field }) => field,
        _ => panic!("header accepted"),
    }
}

#[test]
fn header_fields_out_of_range() {
    assert_eq!(header_error(&[0; 12]), HeaderField::PayloadLength);
    assert_eq!(header_error(&header_payload(0, 1, [8, 2, 0, 0, 0])), HeaderField::Width);
    assert_eq!(header_error(&header_payload(1, 0, [8, 2, 0, 0, 0])), HeaderField::Height);
    assert_eq!(header_error(&header_payload(1, 1, [8, 5, 0, 0, 0])), HeaderField::ColorType);
    assert_eq!(header_error(&header_payload(1, 1, [4, 2, 0, 0, 0])), HeaderField::BitDepth);
    assert_eq!(header_error(&header_payload(1, 1, [16, 3, 0, 0, 0])), HeaderField::BitDepth);
    assert_eq!(
        header_error(&header_payload(1, 1, [8, 2, 1, 0, 0])),
        HeaderField::CompressionMethod
    );
    assert_eq!(header_error(&header_payload(1, 1, [8, 2, 0, 1, 0])), HeaderField::FilterMethod);
    assert_eq!(header_error(&header_payload(1, 1, [8, 2, 0, 0, 2])), HeaderField::InterlaceMethod);
}

#[test]
fn permitted_header_combinations() {
    for (depth, color) in [(1, 0), (16, 0), (2, 3), (8, 3), (16, 2), (8, 4), (16, 6)] {
        let payload = header_payload(3, 4, [depth, color, 0, 0, 1]);
        let image = PngImage::new(&container_with_header(&payload)).unwrap();
        let info = PngImage::get_png_info(&image.chunks[0]).unwrap();
        assert_eq!((info.bit_depth, info.color_type, info.interlace_method), (depth, color, 1));
    }
}

#[test]
fn cursor_readers() {
    let b = sample_bytes();
    let mut cursor = ChunkCursor::new(&b);
    assert!(PngImage::check_file_type(&mut cursor).is_ok());
    assert_eq!(cursor.pos, 8);
    assert_eq!(PngImage::get_chunk_size(&mut cursor, 0).unwrap(), 13);
    assert_eq!(PngImage::get_chunk_type(&mut cursor, 0).unwrap(), "IHDR");
    let data = PngImage::get_chunk_data(&mut cursor, 0, 13).unwrap();
    assert_eq!(data, header_payload(100, 50, [8, 2, 0, 0, 0]));
    let crc = PngImage::get_chunk_crc(&mut cursor, 0).unwrap();
    assert_eq!(crc.to_be_bytes().to_vec(), b[29..33].to_vec());
    assert_eq!(cursor.pos, 33);
    let mut short = ChunkCursor::new(&b[..35]);
    short.pos = 33;
    assert!(matches!(
        PngImage::get_chunk_size(&mut short, 1),
        Err(PngError::TruncatedChunk { index: 1, part: ChunkField::Length })
    ));
}

#[test]
fn error_messages() {
    assert_eq!(PngError::InvalidSignature.get_message(), "invalid signature");
    assert_eq!(
        PngError::TruncatedChunk { index: 12, part: ChunkField::Payload }.get_message(),
        "chunk 12 is truncated in its payload"
    );
    assert_eq!(
        PngError::InvalidChunkType { index: 0 }.get_message(),
        "chunk 0 has a type that is not text"
    );
    assert_eq!(
        PngError::ChecksumMismatch { index: 305, chunk_type: "IDAT".to_string() }.get_message(),
        "checksum mismatch in chunk 305 (IDAT)"
    );
    assert_eq!(
        PngError::MalformedHeader { field: HeaderField::BitDepth }.get_message(),
        "malformed header: bit depth"
    );
    assert_eq!(PngError::IoFailure.get_message(), "input or output failed");
}
