use giffer::decoder::decode;
use giffer::{
    ApplicationExtension, ColorTable, CommentExtension, DataSubBlock, DataSubBlocks, GifData,
    GifError, GraphicControlExtension, GraphicRenderingBlock, ImageDescriptor,
    LogicalScreenDescriptor, PlainTextExtension, TableBasedImageData, Version,
};

fn chunk(data: Vec<u8>) -> DataSubBlock {
    DataSubBlock { block_size: data.len() as u8, data }
}

fn chain(chunks: Vec<Vec<u8>>) -> DataSubBlocks {
    DataSubBlocks { blocks: chunks.into_iter().map(chunk).collect() }
}

/// `GIF89a`, a 1x1 screen with no global palette.
fn header_89a_no_palette() -> Vec<u8> {
    vec![b'G', b'I', b'F', b'8', b'9', b'a', 0x00, 0x01, 0x00, 0x01, 0x00, 0x00, 0x00]
}

/// An eight-byte graphic control extension block.
fn gce_bytes(packed: u8, delay: u16, transparent: u8) -> Vec<u8> {
    vec![0x21, 0xf9, 0x04, packed, (delay >> 8) as u8, delay as u8, transparent, 0x00]
}

/// A minimal image block: separator, zero geometry, no local palette, one
/// LZW byte, an empty data chain.
fn image_bytes() -> Vec<u8> {
    vec![0x2c, 0, 0, 0, 0, 0, 0, 0, 0, 0x00, 0x02, 0x00]
}

#[test]
fn minimal_stream_decodes_and_reencodes() {
    let mut bytes = header_89a_no_palette();
    bytes.push(0x3b);
    let doc = decode(&bytes, false).unwrap();
    assert_eq!(doc.version, Version::V89a);
    assert_eq!(doc.logical_screen_descriptor.logical_screen_width, 1);
    assert_eq!(doc.logical_screen_descriptor.logical_screen_height, 1);
    assert!(doc.logical_screen_descriptor.global_color_table.is_none());
    assert_eq!(doc.application_extensions.len(), 0);
    assert_eq!(doc.comment_extensions.len(), 0);
    assert_eq!(doc.graphic_rendering_blocks.len(), 0);
    let reencoded = doc.encode(&Version::V89a, false);
    assert_eq!(reencoded, bytes);
}

#[test]
fn six_byte_input_fails_past_the_end() {
    let bytes = vec![b'G', b'I', b'F', b'8', b'7', b'a'];
    let err = decode(&bytes, false).unwrap_err();
    assert_eq!(err, GifError::UnexpectedEndOfData { offset: 6 });
}

#[test]
fn empty_input_fails_at_offset_zero() {
    let err = decode(&[], false).unwrap_err();
    assert_eq!(err, GifError::UnexpectedEndOfData { offset: 0 });
}

#[test]
fn signature_mismatch_reports_offset_and_bytes() {
    let err = decode(b"XIF89a", false).unwrap_err();
    assert_eq!(err, GifError::SignatureMismatch { offset: 0, expected: b'G', actual: b'X' });
    let err = decode(b"GYF89a", false).unwrap_err();
    assert_eq!(err, GifError::SignatureMismatch { offset: 1, expected: b'I', actual: b'Y' });
    let err = decode(b"GIZ89a", false).unwrap_err();
    assert_eq!(err, GifError::SignatureMismatch { offset: 2, expected: b'F', actual: b'Z' });
}

#[test]
fn invalid_version_is_rejected() {
    let err = decode(b"GIF88a\x00\x01\x00\x01\x00\x00\x00\x3b", false).unwrap_err();
    assert_eq!(err, GifError::InvalidVersion { offset: 3 });
}

#[test]
fn version_87a_is_accepted() {
    let bytes = b"GIF87a\x00\x01\x00\x01\x00\x00\x00\x3b";
    let doc = decode(bytes, false).unwrap();
    assert_eq!(doc.version, Version::V87a);
}

#[test]
fn unknown_stream_byte_is_rejected() {
    let mut bytes = header_89a_no_palette();
    bytes.push(0x7f);
    let err = decode(&bytes, false).unwrap_err();
    assert_eq!(err, GifError::UnknownStreamByte { byte: 0x7f, offset: 13 });
}

#[test]
fn invalid_extension_label_is_rejected() {
    let mut bytes = header_89a_no_palette();
    bytes.push(0x21);
    bytes.push(0xab);
    let err = decode(&bytes, false).unwrap_err();
    // The reported offset is the position just after the label byte.
    assert_eq!(err, GifError::InvalidExtensionLabel { label: 0xab, offset: 15 });
}

#[test]
fn graphic_control_block_size_must_match() {
    let mut bytes = header_89a_no_palette();
    bytes.extend_from_slice(&[0x21, 0xf9, 0x05]);
    let err = decode(&bytes, false).unwrap_err();
    assert_eq!(err, GifError::BlockSizeMismatch { offset: 15, expected: 4, actual: 5 });
}

#[test]
fn graphic_control_terminator_must_be_zero() {
    let mut bytes = header_89a_no_palette();
    bytes.extend_from_slice(&[0x21, 0xf9, 0x04, 0x00, 0x00, 0x00, 0x00, 0x99]);
    let err = decode(&bytes, false).unwrap_err();
    assert_eq!(err, GifError::InvalidBlockTerminator { offset: 20, actual: 0x99 });
}

#[test]
fn application_block_size_must_match() {
    let mut bytes = header_89a_no_palette();
    bytes.extend_from_slice(&[0x21, 0xff, 0x0a]);
    let err = decode(&bytes, false).unwrap_err();
    assert_eq!(err, GifError::BlockSizeMismatch { offset: 15, expected: 11, actual: 10 });
}

#[test]
fn plain_text_block_size_must_match() {
    let mut bytes = header_89a_no_palette();
    bytes.extend_from_slice(&[0x21, 0x01, 0x0b]);
    let err = decode(&bytes, false).unwrap_err();
    assert_eq!(err, GifError::BlockSizeMismatch { offset: 15, expected: 12, actual: 11 });
}

#[test]
fn truncated_chain_fails_inside_the_chunk() {
    // A comment whose chunk promises 5 bytes but only 2 follow.
    let mut bytes = header_89a_no_palette();
    bytes.extend_from_slice(&[0x21, 0xfe, 0x05, 0xaa, 0xbb]);
    let err = decode(&bytes, false).unwrap_err();
    assert_eq!(err, GifError::UnexpectedEndOfData { offset: 16 });
}

#[test]
fn graphic_control_attaches_to_next_image() {
    let mut bytes = header_89a_no_palette();
    bytes.extend_from_slice(&gce_bytes(0x1c, 0x0102, 7));
    bytes.extend_from_slice(&image_bytes());
    bytes.push(0x3b);
    let doc = decode(&bytes, false).unwrap();
    assert_eq!(doc.graphic_rendering_blocks.len(), 1);
    match &doc.graphic_rendering_blocks[0] {
        GraphicRenderingBlock::Image(img) => {
            let gce = img.graphic_control_extension.as_ref().unwrap();
            assert_eq!(gce.packed_fields, 0x1c);
            assert_eq!(gce.delay_time, 0x0102);
            assert_eq!(gce.transparent_color_index, 7);
        },
        GraphicRenderingBlock::PlainText(_) => panic!("expected an image block"),
    }
}

#[test]
fn graphic_control_before_trailer_is_silently_unused() {
    let mut bytes = header_89a_no_palette();
    bytes.extend_from_slice(&gce_bytes(0x00, 0, 0));
    bytes.push(0x3b);
    let doc = decode(&bytes, false).unwrap();
    assert_eq!(doc.graphic_rendering_blocks.len(), 0);
    assert_eq!(doc.application_extensions.len(), 0);
    assert_eq!(doc.comment_extensions.len(), 0);
}

#[test]
fn second_graphic_control_overwrites_the_first() {
    let mut bytes = header_89a_no_palette();
    bytes.extend_from_slice(&gce_bytes(0x01, 1, 1));
    bytes.extend_from_slice(&gce_bytes(0x02, 2, 2));
    bytes.extend_from_slice(&image_bytes());
    bytes.push(0x3b);
    let doc = decode(&bytes, false).unwrap();
    match &doc.graphic_rendering_blocks[0] {
        GraphicRenderingBlock::Image(img) => {
            let gce = img.graphic_control_extension.as_ref().unwrap();
            assert_eq!(gce.packed_fields, 0x02);
            assert_eq!(gce.delay_time, 2);
        },
        GraphicRenderingBlock::PlainText(_) => panic!("expected an image block"),
    }
}

#[test]
fn comment_is_stored_when_not_discarded() {
    let mut bytes = header_89a_no_palette();
    bytes.extend_from_slice(&[0x21, 0xfe, 0x02, b'h', b'i', 0x00]);
    bytes.push(0x3b);
    let doc = decode(&bytes, false).unwrap();
    assert_eq!(doc.comment_extensions.len(), 1);
    assert_eq!(doc.comment_extensions[0].data.blocks.len(), 1);
    assert_eq!(doc.comment_extensions[0].data.blocks[0].data, vec![b'h', b'i']);
}

#[test]
fn discarded_comment_is_consumed_but_not_stored() {
    let mut bytes = header_89a_no_palette();
    bytes.extend_from_slice(&[0x21, 0xfe, 0x02, b'h', b'i', 0x00]);
    bytes.extend_from_slice(&image_bytes());
    bytes.push(0x3b);
    let doc = decode(&bytes, true).unwrap();
    assert_eq!(doc.comment_extensions.len(), 0);
    // The cursor stayed correct: the image after the comment still decoded.
    assert_eq!(doc.graphic_rendering_blocks.len(), 1);
}

#[test]
fn application_extension_fields_are_read() {
    let mut bytes = header_89a_no_palette();
    bytes.extend_from_slice(&[0x21, 0xff, 0x0b]);
    bytes.extend_from_slice(b"NETSCAPE");
    bytes.extend_from_slice(b"2.0");
    bytes.extend_from_slice(&[0x03, 0x01, 0x00, 0x00, 0x00]);
    bytes.push(0x3b);
    let doc = decode(&bytes, false).unwrap();
    assert_eq!(doc.application_extensions.len(), 1);
    let app = &doc.application_extensions[0];
    assert_eq!(app.identifier, b"NETSCAPE".to_vec());
    assert_eq!(app.authentication_code, b"2.0".to_vec());
    assert_eq!(app.data.blocks.len(), 1);
    assert_eq!(app.data.blocks[0].data, vec![0x01, 0x00, 0x00]);
}

#[test]
fn plain_text_without_global_palette_is_dropped() {
    let mut bytes = header_89a_no_palette();
    // Graphic control, then a plain text block; no global palette exists.
    bytes.extend_from_slice(&gce_bytes(0x05, 5, 5));
    bytes.extend_from_slice(&[0x21, 0x01, 0x0c]);
    bytes.extend_from_slice(&[0, 0, 0, 0, 0, 8, 0, 8, 8, 8, 1, 0]);
    bytes.extend_from_slice(&[0x01, b'A', 0x00]);
    bytes.extend_from_slice(&image_bytes());
    bytes.push(0x3b);
    let doc = decode(&bytes, false).unwrap();
    // The plain text block is gone, and it consumed the pending modifier
    // with it: the image that follows carries none.
    assert_eq!(doc.graphic_rendering_blocks.len(), 1);
    match &doc.graphic_rendering_blocks[0] {
        GraphicRenderingBlock::Image(img) => {
            assert!(img.graphic_control_extension.is_none());
        },
        GraphicRenderingBlock::PlainText(_) => panic!("plain text should have been dropped"),
    }
}

#[test]
fn palette_length_follows_size_exponent() {
    for exponent in 0u8..8 {
        let size = 3usize * (1usize << (exponent as usize + 1));
        let mut bytes = vec![b'G', b'I', b'F', b'8', b'9', b'a'];
        bytes.extend_from_slice(&[0x00, 0x01, 0x00, 0x01]);
        bytes.push(0x80 | exponent);
        bytes.extend_from_slice(&[0x00, 0x00]);
        for i in 0..size {
            bytes.push(i as u8);
        }
        bytes.push(0x3b);
        let doc = decode(&bytes, false).unwrap();
        let table = doc.logical_screen_descriptor.global_color_table.as_ref().unwrap();
        assert_eq!(table.pixels.len(), size);
        assert_eq!(doc.logical_screen_descriptor.global_color_table_size(), exponent);
        // Pixel index 1 is bytes 3, 4, 5.
        assert_eq!(table.get_pixel(1), &[3u8, 4, 5]);
        // Re-encoding reproduces the input exactly.
        assert_eq!(doc.encode(&Version::V89a, false), bytes);
    }
}

#[test]
fn get_pixel_returns_three_byte_groups() {
    let table = ColorTable { pixels: vec![10, 11, 12, 20, 21, 22, 30, 31, 32] };
    assert_eq!(table.get_pixel(0), &[10u8, 11, 12]);
    assert_eq!(table.get_pixel(1), &[20u8, 21, 22]);
    assert_eq!(table.get_pixel(2), &[30u8, 31, 32]);
}

#[test]
fn truncated_palette_fails() {
    let mut bytes = vec![b'G', b'I', b'F', b'8', b'9', b'a'];
    bytes.extend_from_slice(&[0x00, 0x01, 0x00, 0x01]);
    bytes.push(0x80); // exponent 0: a 6-byte palette must follow
    bytes.extend_from_slice(&[0x00, 0x00]);
    bytes.extend_from_slice(&[1, 2, 3]); // only half of it
    let err = decode(&bytes, false).unwrap_err();
    assert_eq!(err, GifError::UnexpectedEndOfData { offset: 13 });
}

#[test]
fn chain_codec_round_trips() {
    let cases: Vec<Vec<Vec<u8>>> = vec![
        vec![],
        vec![vec![0x42]],
        vec![vec![0xff; 255]],
        vec![vec![1, 2, 3], vec![4], vec![5; 255], vec![6, 7]],
    ];
    for chunks in cases {
        let original = chain(chunks);
        let encoded = original.encode();
        let (decoded, end) = DataSubBlocks::decode(&encoded, 0).unwrap();
        assert_eq!(end, encoded.len());
        assert_eq!(decoded, original);
        // Encoding the re-decoded chain is byte-identical too.
        assert_eq!(decoded.encode(), encoded);
    }
}

#[test]
fn chain_terminator_alone_is_an_empty_chain() {
    let (decoded, end) = DataSubBlocks::decode(&[0x00], 0).unwrap();
    assert_eq!(end, 1);
    assert_eq!(decoded.blocks.len(), 0);
}

#[test]
fn screen_descriptor_accessors_split_the_packed_byte() {
    let mut bytes = vec![b'G', b'I', b'F', b'8', b'9', b'a'];
    bytes.extend_from_slice(&[0x01, 0x00, 0x02, 0x00]); // 256 x 512
    bytes.push(0b1_011_1_010);
    bytes.extend_from_slice(&[0x05, 0x31]);
    let size = 3usize * (1usize << (2 + 1));
    for _ in 0..size {
        bytes.push(0);
    }
    bytes.push(0x3b);
    let doc = decode(&bytes, false).unwrap();
    let s = &doc.logical_screen_descriptor;
    assert_eq!(s.logical_screen_width, 256);
    assert_eq!(s.logical_screen_height, 512);
    assert_eq!(s.global_color_table_flag(), 1);
    assert_eq!(s.color_resolution(), 0b011);
    assert_eq!(s.sort_flag(), 1);
    assert_eq!(s.global_color_table_size(), 0b010);
    assert_eq!(s.background_color_index, 0x05);
    assert_eq!(s.pixel_aspect_ratio, 0x31);
}

#[test]
fn graphic_control_accessors_split_the_packed_byte() {
    let mut bytes = header_89a_no_palette();
    bytes.extend_from_slice(&gce_bytes(0b000_101_1_1, 0, 0));
    bytes.extend_from_slice(&image_bytes());
    bytes.push(0x3b);
    let doc = decode(&bytes, false).unwrap();
    match &doc.graphic_rendering_blocks[0] {
        GraphicRenderingBlock::Image(img) => {
            let gce = img.graphic_control_extension.as_ref().unwrap();
            assert_eq!(gce.disposal_method(), 0b101);
            assert_eq!(gce.user_input_flag(), 1);
            assert_eq!(gce.transparent_color_flag(), 1);
        },
        GraphicRenderingBlock::PlainText(_) => panic!("expected an image block"),
    }
}

#[test]
fn image_descriptor_accessors_split_the_packed_byte() {
    let mut bytes = header_89a_no_palette();
    let packed = 0b1_1_1_00_001u8;
    bytes.push(0x2c);
    bytes.extend_from_slice(&[0x00, 0x02, 0x00, 0x03, 0x00, 0x04, 0x00, 0x05]);
    bytes.push(packed);
    let size = 3usize * (1usize << (1 + 1));
    for i in 0..size {
        bytes.push(i as u8);
    }
    bytes.extend_from_slice(&[0x07, 0x00]);
    bytes.push(0x3b);
    let doc = decode(&bytes, false).unwrap();
    match &doc.graphic_rendering_blocks[0] {
        GraphicRenderingBlock::Image(img) => {
            assert_eq!(img.image_left_position, 2);
            assert_eq!(img.image_top_position, 3);
            assert_eq!(img.image_width, 4);
            assert_eq!(img.image_height, 5);
            assert_eq!(img.local_color_table_flag(), 1);
            assert_eq!(img.interlace_flag(), 1);
            assert_eq!(img.sort_flag(), 1);
            assert_eq!(img.local_color_table_size(), 1);
            let table = img.local_color_table.as_ref().unwrap();
            assert_eq!(table.pixels.len(), size);
            assert_eq!(img.image_data.lzw_minimum_code_size, 0x07);
        },
        GraphicRenderingBlock::PlainText(_) => panic!("expected an image block"),
    }
}

#[test]
fn version_encode_yields_the_version_string() {
    assert_eq!(Version::V87a.encode(), b"87a".to_vec());
    assert_eq!(Version::V89a.encode(), b"89a".to_vec());
}

#[test]
fn well_formed_check_accepts_decoded_documents() {
    let mut bytes = header_89a_no_palette();
    bytes.extend_from_slice(&gce_bytes(0x1c, 1, 0));
    bytes.extend_from_slice(&image_bytes());
    bytes.push(0x3b);
    let doc = decode(&bytes, false).unwrap();
    assert!(doc.is_well_formed());
}

#[test]
fn well_formed_check_rejects_lying_length_bytes() {
    let good = DataSubBlocks { blocks: vec![chunk(vec![1, 2, 3])] };
    assert!(good.is_well_formed());
    let lying = DataSubBlocks {
        blocks: vec![DataSubBlock { block_size: 2, data: vec![1, 2, 3] }],
    };
    assert!(!lying.is_well_formed());
    let zero = DataSubBlocks { blocks: vec![DataSubBlock { block_size: 0, data: vec![] }] };
    assert!(!zero.is_well_formed());
}

#[test]
fn well_formed_check_rejects_wrong_palette_length() {
    let screen = LogicalScreenDescriptor {
        logical_screen_width: 1,
        logical_screen_height: 1,
        packed_fields: 0x80, // size exponent 0: the palette must hold 6 bytes
        background_color_index: 0,
        pixel_aspect_ratio: 0,
        global_color_table: Some(ColorTable { pixels: vec![1, 2, 3] }),
    };
    assert!(!screen.is_well_formed());
    let fixed = LogicalScreenDescriptor {
        global_color_table: Some(ColorTable { pixels: vec![1, 2, 3, 4, 5, 6] }),
        ..screen
    };
    assert!(fixed.is_well_formed());
}
