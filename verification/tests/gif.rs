use gif_meta::errors::{ImageError, IoFailure};
use gif_meta::loader::gif::{
    load, read_header, read_signature, read_table_bits, table_bytes, BlockReader,
};
use gif_meta::stream::ByteCursor;
use gif_meta::types::{Dimensions, Format, ImageMeta};

fn screen(width: u16, height: u16, flags: u8) -> Vec<u8> {
    let mut bytes = b"GIF89a".to_vec();
    bytes.extend_from_slice(&width.to_le_bytes());
    bytes.extend_from_slice(&height.to_le_bytes());
    bytes.push(flags);
    bytes.push(0);
    bytes.push(0);
    bytes
}

fn frame() -> Vec<u8> {
    vec![0x2c, 0, 0, 0, 0, 1, 0, 1, 0, 0x00, 0x02, 0x00]
}

fn still(width: u32, height: u32) -> ImageMeta {
    ImageMeta { dimensions: Dimensions { width, height }, format: Format::Gif, animation_frames: None }
}

fn corrupt(text: &str) -> ImageError {
    ImageError::CorruptImage(text.to_string())
}

#[test]
fn signature_then_screen_then_trailer() {
    let mut bytes = screen(1, 2, 0);
    bytes.push(0x3b);
    let mut cursor = ByteCursor::new(&bytes);
    assert_eq!(load(&mut cursor), Ok(still(1, 2)));
    assert_eq!(cursor.position(), 14);
}

#[test]
fn both_versions_are_accepted() {
    for magic in [b"GIF87a", b"GIF89a"] {
        let mut cursor = ByteCursor::new(&magic[..]);
        assert_eq!(read_signature(&mut cursor), Ok(()));
        assert_eq!(cursor.position(), 6);
    }
}

#[test]
fn other_signatures_are_refused() {
    let refused: [&[u8]; 6] =
        [b"GIF88a", b"GIF89b", b"gif89a", b"\x89PNG\r\n", b"GIF87A", b"\0\0\0\0\0\0"];
    for magic in refused {
        let mut cursor = ByteCursor::new(magic);
        assert_eq!(read_signature(&mut cursor), Err(ImageError::InvalidSignature));
        assert_eq!(cursor.position(), 6);
    }
}

#[test]
fn signature_takes_six_bytes_only() {
    let mut cursor = ByteCursor::new(b"GIF89a and more");
    assert_eq!(read_signature(&mut cursor), Ok(()));
    assert_eq!(cursor.position(), 6);
}

#[test]
fn short_signature_is_an_io_failure() {
    let mut cursor = ByteCursor::new(b"GIF89");
    assert_eq!(read_signature(&mut cursor), Err(ImageError::IoError(IoFailure::UnexpectedEof)));
    assert_eq!(cursor.position(), 5);
    let mut empty = ByteCursor::new(b"");
    assert_eq!(read_signature(&mut empty), Err(ImageError::IoError(IoFailure::UnexpectedEof)));
}

#[test]
fn invalid_signature_fails_the_load() {
    let mut bytes = screen(1, 1, 0);
    bytes[4] = b'8';
    bytes.push(0x3b);
    let mut cursor = ByteCursor::new(&bytes);
    assert_eq!(load(&mut cursor), Err(ImageError::InvalidSignature));
    assert_eq!(cursor.position(), 6);
}

#[test]
fn table_sizes_by_the_formula() {
    for bits in 0..=255u8 {
        let expected = if bits & 0x80 == 0 { 0 } else { 3 * (2i64 << (bits & 0x07)) };
        assert_eq!(table_bytes(bits), expected);
    }
}

#[test]
fn table_sizes_exact() {
    assert_eq!(table_bytes(0x00), 0);
    assert_eq!(table_bytes(0x07), 0);
    assert_eq!(table_bytes(0x7f), 0);
    assert_eq!(table_bytes(0x80), 6);
    assert_eq!(table_bytes(0x81), 12);
    assert_eq!(table_bytes(0x82), 24);
    assert_eq!(table_bytes(0x83), 48);
    assert_eq!(table_bytes(0x84), 96);
    assert_eq!(table_bytes(0x85), 192);
    assert_eq!(table_bytes(0x86), 384);
    assert_eq!(table_bytes(0x87), 768);
    assert_eq!(table_bytes(0xf7), 768);
    assert_eq!(table_bytes(0xf8), 6);
}

#[test]
fn table_sizes_are_multiples_of_three() {
    for bits in 0..=255u8 {
        let size = table_bytes(bits);
        assert!(size >= 0);
        assert_eq!(size % 3, 0);
    }
}

#[test]
fn table_sizes_grow_with_the_low_bits() {
    for small in 0x80..=255u8 {
        for large in 0x80..=255u8 {
            if small & 0x07 <= large & 0x07 {
                assert!(table_bytes(small) <= table_bytes(large));
            }
        }
    }
}

#[test]
fn table_bits_reads_one_byte() {
    let bytes = [0x91u8, 0x00];
    let mut cursor = ByteCursor::new(&bytes);
    assert_eq!(read_table_bits(&mut cursor), Ok(12));
    assert_eq!(cursor.position(), 1);
    assert_eq!(read_table_bits(&mut cursor), Ok(0));
    assert_eq!(read_table_bits(&mut cursor), Err(ImageError::IoError(IoFailure::UnexpectedEof)));
    assert_eq!(cursor.position(), 2);
}

#[test]
fn dimensions_are_little_endian() {
    let bytes = [0x34u8, 0x12, 0xcd, 0xab, 0x00, 0x00, 0x00];
    let mut cursor = ByteCursor::new(&bytes);
    assert_eq!(read_header(&mut cursor), Ok(Dimensions { width: 0x1234, height: 0xabcd }));
    assert_eq!(cursor.position(), 7);
}

#[test]
fn largest_dimensions() {
    let bytes = [0xffu8, 0xff, 0xff, 0xff, 0x00, 0x00, 0x00];
    let mut cursor = ByteCursor::new(&bytes);
    assert_eq!(read_header(&mut cursor), Ok(Dimensions { width: 65535, height: 65535 }));
}

#[test]
fn header_skips_the_global_table() {
    let mut bytes = screen(640, 480, 0x80);
    bytes.extend_from_slice(&[9; 6]);
    bytes.push(0x3b);
    let mut cursor = ByteCursor::new(&bytes);
    assert_eq!(load(&mut cursor), Ok(still(640, 480)));
    assert_eq!(cursor.position(), 20);
}

#[test]
fn header_skips_the_largest_global_table() {
    let mut bytes = screen(3, 4, 0xf7);
    bytes.extend_from_slice(&[0x21; 768]);
    bytes.push(0x3b);
    let mut cursor = ByteCursor::new(&bytes);
    assert_eq!(load(&mut cursor), Ok(still(3, 4)));
    assert_eq!(cursor.position(), 13 + 768 + 1);
}

#[test]
fn header_seeks_beyond_the_data() {
    let bytes = [1u8, 0, 1, 0, 0x80, 0, 0, 1, 2];
    let mut cursor = ByteCursor::new(&bytes);
    assert_eq!(read_header(&mut cursor), Ok(Dimensions { width: 1, height: 1 }));
    assert_eq!(cursor.position(), 13);
    let mut reader = BlockReader::default();
    assert_eq!(reader.read(&mut cursor), Err(ImageError::IoError(IoFailure::UnexpectedEof)));
    assert_eq!(cursor.position(), 13);
}

#[test]
fn short_header_is_an_io_failure() {
    for length in 0..5 {
        let bytes = [7u8, 0, 7, 0, 0];
        let mut cursor = ByteCursor::new(&bytes[..length]);
        assert_eq!(read_header(&mut cursor), Err(ImageError::IoError(IoFailure::UnexpectedEof)));
        assert_eq!(cursor.position(), length as u64);
    }
}

#[test]
fn one_frame_is_a_still_image() {
    let mut bytes = screen(10, 20, 0);
    bytes.extend(frame());
    bytes.push(0x3b);
    let mut cursor = ByteCursor::new(&bytes);
    assert_eq!(load(&mut cursor), Ok(still(10, 20)));
    assert_eq!(cursor.position(), bytes.len() as u64);
}

#[test]
fn two_frames_are_an_animation() {
    let mut bytes = screen(10, 20, 0);
    bytes.extend_from_slice(&[0x2c, 0, 0, 0, 0, 0, 0, 0, 0, 0, 0, 0]);
    bytes.extend_from_slice(&[0x2c, 0, 0, 0, 0, 0, 0, 0, 0, 0, 0, 0]);
    bytes.push(0x3b);
    let mut cursor = ByteCursor::new(&bytes);
    assert_eq!(
        load(&mut cursor),
        Ok(ImageMeta {
            dimensions: Dimensions { width: 10, height: 20 },
            format: Format::Gif,
            animation_frames: Some(2),
        })
    );
    assert_eq!(cursor.position(), 38);
}

#[test]
fn every_frame_is_counted() {
    for frames in 0..40usize {
        let mut bytes = screen(5, 6, 0);
        for _ in 0..frames {
            bytes.extend(frame());
        }
        bytes.push(0x3b);
        let mut cursor = ByteCursor::new(&bytes);
        let expected = if frames > 1 { Some(frames) } else { None };
        assert_eq!(load(&mut cursor).map(|meta| meta.animation_frames), Ok(expected));
    }
}

#[test]
fn extensions_are_no_frames() {
    let mut bytes = screen(5, 6, 0);
    bytes.extend_from_slice(&[0x21, 0xf9, 4, 0, 0, 0, 0, 0]);
    bytes.extend(frame());
    bytes.extend_from_slice(&[0x21, 0xfe, 3, b'a', b'b', b'c', 0]);
    bytes.extend_from_slice(&[0x21, 0xf9, 4, 0, 0, 0, 0, 0]);
    bytes.extend(frame());
    bytes.extend_from_slice(&[0x21, 0xff, 11, 1, 2, 3, 4, 5, 6, 7, 8, 9, 10, 11, 3, 1, 0, 0, 0]);
    bytes.extend(frame());
    bytes.push(0x3b);
    let mut cursor = ByteCursor::new(&bytes);
    assert_eq!(load(&mut cursor).map(|meta| meta.animation_frames), Ok(Some(3)));
    assert_eq!(cursor.position(), bytes.len() as u64);
}

#[test]
fn frame_without_local_table_skips_one_byte() {
    let bytes = [0u8, 0, 0, 0, 0, 0, 0, 0, 0x00, 0x08, 0x00, 0x3b];
    let mut cursor = ByteCursor::new(&bytes);
    let mut reader = BlockReader::default();
    assert_eq!(reader.read_image_data(&mut cursor), Ok(()));
    assert_eq!(cursor.position(), 11);
    assert_eq!(reader.frames, 1);
}

#[test]
fn frame_with_local_table_skips_it() {
    let mut bytes = vec![0u8, 0, 0, 0, 0, 0, 0, 0, 0x81];
    bytes.extend_from_slice(&[0x2c; 12]);
    bytes.extend_from_slice(&[0x08, 0x02, 0x3b, 0x3b, 0x00, 0x3b]);
    let mut cursor = ByteCursor::new(&bytes);
    let mut reader = BlockReader::default();
    assert_eq!(reader.read_image_data(&mut cursor), Ok(()));
    assert_eq!(cursor.position(), 26);
    assert_eq!(reader.frames, 1);
}

#[test]
fn image_data_is_never_interpreted() {
    let mut bytes = screen(2, 2, 0);
    bytes.extend_from_slice(&[0x2c, 0, 0, 0, 0, 2, 0, 2, 0, 0, 2]);
    bytes.push(255);
    bytes.extend_from_slice(&[0x3b; 255]);
    bytes.push(3);
    bytes.extend_from_slice(&[0x2c, 0x21, 0x00]);
    bytes.push(0);
    bytes.push(0x3b);
    let mut cursor = ByteCursor::new(&bytes);
    assert_eq!(load(&mut cursor), Ok(still(2, 2)));
    assert_eq!(cursor.position(), bytes.len() as u64);
}

#[test]
fn bytes_behind_the_trailer_are_left_alone() {
    let mut bytes = screen(1, 2, 0);
    bytes.push(0x3b);
    bytes.extend_from_slice(&[0x00, 0x21, 0x02]);
    let mut cursor = ByteCursor::new(&bytes);
    assert_eq!(load(&mut cursor), Ok(still(1, 2)));
    assert_eq!(cursor.position(), 14);
}

#[test]
fn unknown_block_is_named() {
    let mut bytes = screen(1, 2, 0);
    bytes.push(0x00);
    bytes.push(0x3b);
    let mut cursor = ByteCursor::new(&bytes);
    assert_eq!(load(&mut cursor), Err(corrupt("Unknown block: 0")));
    assert_eq!(cursor.position(), 14);
}

#[test]
fn unknown_block_is_named_in_lower_case_hexadecimal() {
    for (tag, text) in [
        (0x01u8, "Unknown block: 1"),
        (0x0a, "Unknown block: a"),
        (0x0f, "Unknown block: f"),
        (0x10, "Unknown block: 10"),
        (0x20, "Unknown block: 20"),
        (0x22, "Unknown block: 22"),
        (0x2b, "Unknown block: 2b"),
        (0x3a, "Unknown block: 3a"),
        (0x3c, "Unknown block: 3c"),
        (0x9e, "Unknown block: 9e"),
        (0xff, "Unknown block: ff"),
    ] {
        let bytes = [tag, 0x3b];
        let mut cursor = ByteCursor::new(&bytes);
        let mut reader = BlockReader::default();
        assert_eq!(reader.read(&mut cursor), Err(corrupt(text)));
        assert_eq!(cursor.position(), 1);
    }
}

#[test]
fn every_unknown_block_is_refused() {
    for tag in 0..=255u8 {
        if tag == 0x21 || tag == 0x2c || tag == 0x3b {
            continue;
        }
        let bytes = [tag, 0x3b];
        let mut cursor = ByteCursor::new(&bytes);
        let mut reader = BlockReader::default();
        assert_eq!(reader.read(&mut cursor), Err(corrupt(&format!("Unknown block: {:x}", tag))));
        assert_eq!(ImageError::unknown_block(tag), corrupt(&format!("Unknown block: {:x}", tag)));
    }
}

#[test]
fn unknown_block_behind_frames() {
    let mut bytes = screen(1, 2, 0);
    bytes.extend(frame());
    bytes.extend(frame());
    bytes.push(0x3d);
    let mut cursor = ByteCursor::new(&bytes);
    assert_eq!(load(&mut cursor), Err(corrupt("Unknown block: 3d")));
    assert_eq!(cursor.position(), bytes.len() as u64);
}

#[test]
fn unknown_extension_is_named() {
    let mut bytes = screen(1, 2, 0);
    bytes.extend_from_slice(&[0x21, 0x02, 0x00, 0x3b]);
    let mut cursor = ByteCursor::new(&bytes);
    assert_eq!(load(&mut cursor), Err(corrupt("Unknown extension: 2")));
    assert_eq!(cursor.position(), 15);
}

#[test]
fn every_unknown_extension_is_refused() {
    for label in 0..=255u8 {
        if label == 0x01 || label == 0xf9 || label == 0xfe || label == 0xff {
            continue;
        }
        let bytes = [label, 0x00];
        let mut cursor = ByteCursor::new(&bytes);
        let mut reader = BlockReader::default();
        assert_eq!(
            reader.read_extension(&mut cursor),
            Err(corrupt(&format!("Unknown extension: {:x}", label)))
        );
        assert_eq!(cursor.position(), 1);
    }
}

#[test]
fn recognized_extensions_are_skipped_alike() {
    for label in [0x01u8, 0xf9, 0xfe, 0xff] {
        for payload in [0x00u8, 0x21, 0x2c, 0x3b, 0xff] {
            let bytes = [label, 2, payload, payload, 1, payload, 0, 0x3b];
            let mut cursor = ByteCursor::new(&bytes);
            let mut reader = BlockReader::default();
            assert_eq!(reader.read_extension(&mut cursor), Ok(()));
            assert_eq!(cursor.position(), 7);
            assert_eq!(reader.frames, 0);
        }
    }
}

#[test]
fn extension_without_payload() {
    let bytes = [0xf9u8, 0];
    let mut cursor = ByteCursor::new(&bytes);
    let mut reader = BlockReader::default();
    assert_eq!(reader.read_extension(&mut cursor), Ok(()));
    assert_eq!(cursor.position(), 2);
}

#[test]
fn every_truncation_is_an_io_failure() {
    let mut bytes = screen(300, 200, 0x80);
    bytes.extend_from_slice(&[1, 2, 3, 4, 5, 6]);
    bytes.extend_from_slice(&[0x21, 0xf9, 4, 0, 0, 0, 0, 0]);
    bytes.extend_from_slice(&[0x2c, 0, 0, 0, 0, 1, 0, 1, 0, 0x80, 1, 1, 1, 2, 2, 2, 2, 2, 0x4c, 0x01, 0]);
    bytes.extend(frame());
    bytes.push(0x3b);
    let mut whole = ByteCursor::new(&bytes);
    assert_eq!(load(&mut whole).map(|meta| meta.animation_frames), Ok(Some(2)));
    for length in 0..bytes.len() {
        let mut cursor = ByteCursor::new(&bytes[..length]);
        assert_eq!(load(&mut cursor), Err(ImageError::IoError(IoFailure::UnexpectedEof)));
        assert!(cursor.position() >= length as u64);
    }
}

#[test]
fn missing_trailer_is_an_io_failure() {
    let mut bytes = screen(1, 2, 0);
    bytes.extend(frame());
    let mut cursor = ByteCursor::new(&bytes);
    assert_eq!(load(&mut cursor), Err(ImageError::IoError(IoFailure::UnexpectedEof)));
    assert_eq!(cursor.position(), bytes.len() as u64);
}

#[test]
fn sub_block_longer_than_the_data() {
    let bytes = [0xfeu8, 200, 1, 2, 3];
    let mut cursor = ByteCursor::new(&bytes);
    let mut reader = BlockReader::default();
    assert_eq!(reader.read_extension(&mut cursor), Err(ImageError::IoError(IoFailure::UnexpectedEof)));
    assert_eq!(cursor.position(), 202);
}

#[test]
fn frames_seen_before_a_failure_stay_counted() {
    let mut bytes = frame();
    bytes.extend(frame());
    bytes.push(0x2c);
    let mut cursor = ByteCursor::new(&bytes);
    let mut reader = BlockReader::default();
    assert_eq!(reader.read(&mut cursor), Err(ImageError::IoError(IoFailure::UnexpectedEof)));
    assert_eq!(reader.frames, 2);
}

#[test]
fn walk_goes_on_from_an_earlier_count() {
    let mut bytes = frame();
    bytes.push(0x3b);
    let mut reader = BlockReader { frames: 41 };
    let mut cursor = ByteCursor::new(&bytes);
    assert_eq!(reader.read(&mut cursor), Ok(()));
    assert_eq!(reader.frames, 42);
}

#[test]
fn seek_out_of_range_is_an_io_failure() {
    let bytes = frame();
    let mut cursor = ByteCursor::new(&bytes);
    assert_eq!(cursor.seek_relative(i64::MAX), Ok(()));
    assert_eq!(cursor.seek_relative(i64::MAX), Ok(()));
    assert_eq!(cursor.position(), u64::MAX - 1);
    let mut reader = BlockReader::default();
    assert_eq!(reader.read_image_data(&mut cursor), Err(ImageError::IoError(IoFailure::InvalidSeek)));
    assert_eq!(cursor.position(), u64::MAX - 1);
    assert_eq!(reader.frames, 0);
}

#[test]
fn load_starts_at_the_cursor() {
    let mut bytes = vec![0xaa, 0xbb, 0xcc];
    bytes.extend(screen(8, 9, 0));
    bytes.push(0x3b);
    let mut cursor = ByteCursor::new(&bytes);
    assert_eq!(cursor.seek_relative(3), Ok(()));
    assert_eq!(load(&mut cursor), Ok(still(8, 9)));
    assert_eq!(cursor.position(), 17);
}
