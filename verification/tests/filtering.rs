use giffer::decoder::decode;
use giffer::{
    ApplicationExtension, ColorTable, CommentExtension, DataSubBlock, DataSubBlocks, GifData,
    GraphicControlExtension, GraphicRenderingBlock, ImageDescriptor, LogicalScreenDescriptor,
    PlainTextExtension, TableBasedImageData, Version,
};

fn chunk(data: Vec<u8>) -> DataSubBlock {
    DataSubBlock { block_size: data.len() as u8, data }
}

fn chain(chunks: Vec<Vec<u8>>) -> DataSubBlocks {
    DataSubBlocks { blocks: chunks.into_iter().map(chunk).collect() }
}

/// A document holding one of every filterable block kind: an application
/// extension, a comment, a plain text block, and an image with an attached
/// graphic control modifier.  The screen carries a global palette so the
/// plain text block survives decoding.
fn rich_document() -> GifData {
    let gce = GraphicControlExtension {
        packed_fields: 0x1c,
        delay_time: 500,
        transparent_color_index: 3,
    };
    GifData {
        version: Version::V89a,
        logical_screen_descriptor: LogicalScreenDescriptor {
            logical_screen_width: 4,
            logical_screen_height: 4,
            packed_fields: 0x80, // global palette, size exponent 0
            background_color_index: 0,
            pixel_aspect_ratio: 0,
            global_color_table: Some(ColorTable { pixels: vec![1, 2, 3, 4, 5, 6] }),
        },
        application_extensions: vec![ApplicationExtension {
            identifier: b"NETSCAPE".to_vec(),
            authentication_code: b"2.0".to_vec(),
            data: chain(vec![vec![0x01, 0x00, 0x00]]),
        }],
        comment_extensions: vec![CommentExtension { data: chain(vec![b"made by hand".to_vec()]) }],
        graphic_rendering_blocks: vec![
            GraphicRenderingBlock::PlainText(PlainTextExtension {
                text_grid_left_position: 0,
                text_grid_top_position: 0,
                text_grid_width: 8,
                text_grid_height: 8,
                character_cell_width: 8,
                character_cell_height: 8,
                text_foreground_color_index: 1,
                text_background_color_index: 0,
                data: chain(vec![b"Hi".to_vec()]),
                graphic_control_extension: None,
            }),
            GraphicRenderingBlock::Image(ImageDescriptor {
                image_left_position: 0,
                image_top_position: 0,
                image_width: 4,
                image_height: 4,
                packed_fields: 0x00,
                local_color_table: None,
                image_data: TableBasedImageData {
                    lzw_minimum_code_size: 2,
                    image_data: chain(vec![vec![0x44, 0x55]]),
                },
                graphic_control_extension: Some(gce),
            }),
        ],
    }
}

/// The same document with nothing the earlier version would drop.
fn plain_document() -> GifData {
    let mut doc = rich_document();
    doc.application_extensions = vec![];
    doc.comment_extensions = vec![];
    doc.graphic_rendering_blocks.retain(|b| matches!(b, GraphicRenderingBlock::Image(_)));
    for block in doc.graphic_rendering_blocks.iter_mut() {
        if let GraphicRenderingBlock::Image(img) = block {
            img.graphic_control_extension = None;
        }
    }
    doc
}

#[test]
fn earlier_version_drops_all_three_block_kinds() {
    let doc = rich_document();
    let filtered = doc.encode(&Version::V87a, false);
    // The stripped document, encoded for the same version, gives the very
    // same bytes: nothing of the application extension, the comment or the
    // plain text block survives, and the image loses its modifier.
    let stripped = plain_document();
    let expected = stripped.encode(&Version::V87a, false);
    assert_eq!(filtered, expected);
    // Header, screen descriptor (with palette) and trailer are all present.
    assert_eq!(&filtered[0..6], b"GIF87a");
    assert_eq!(&filtered[6..13], &[0x00, 0x04, 0x00, 0x04, 0x80, 0x00, 0x00]);
    assert_eq!(&filtered[13..19], &[1, 2, 3, 4, 5, 6]);
    assert_eq!(*filtered.last().unwrap(), 0x3b);
    // None of the dropped kinds' label bytes appear after the header.
    assert!(!filtered[19..].contains(&0x21));
}

#[test]
fn later_version_keeps_everything() {
    let doc = rich_document();
    let bytes = doc.encode(&Version::V89a, false);
    let decoded = decode(&bytes, false).unwrap();
    assert_eq!(decoded.application_extensions.len(), 1);
    assert_eq!(decoded.comment_extensions.len(), 1);
    assert_eq!(decoded.graphic_rendering_blocks.len(), 2);
}

#[test]
fn discard_comments_flag_drops_comments_at_encode() {
    let doc = rich_document();
    let with_comments = doc.encode(&Version::V89a, false);
    let without_comments = doc.encode(&Version::V89a, true);
    assert!(with_comments.len() > without_comments.len());
    let decoded = decode(&without_comments, false).unwrap();
    assert_eq!(decoded.comment_extensions.len(), 0);
    assert_eq!(decoded.application_extensions.len(), 1);
}

#[test]
fn round_trip_reproduces_encoder_output_for_later_version() {
    let doc = rich_document();
    let bytes = doc.encode(&Version::V89a, false);
    let decoded = decode(&bytes, false).unwrap();
    assert_eq!(decoded, doc);
    let reencoded = decoded.encode(&Version::V89a, false);
    assert_eq!(reencoded, bytes);
}

#[test]
fn round_trip_reproduces_encoder_output_for_earlier_version() {
    let doc = plain_document();
    let bytes = doc.encode(&Version::V87a, false);
    let decoded = decode(&bytes, false).unwrap();
    let reencoded = decoded.encode(&Version::V87a, false);
    assert_eq!(reencoded, bytes);
    assert_eq!(decoded.version, Version::V87a);
}

#[test]
fn plain_text_block_with_modifier_round_trips() {
    let mut doc = rich_document();
    if let GraphicRenderingBlock::PlainText(p) = &mut doc.graphic_rendering_blocks[0] {
        p.graphic_control_extension = Some(GraphicControlExtension {
            packed_fields: 0x04,
            delay_time: 10,
            transparent_color_index: 0,
        });
    }
    let bytes = doc.encode(&Version::V89a, false);
    let decoded = decode(&bytes, false).unwrap();
    assert_eq!(decoded, doc);
    assert_eq!(decoded.encode(&Version::V89a, false), bytes);
}

#[test]
fn image_with_local_palette_round_trips() {
    let mut doc = plain_document();
    if let GraphicRenderingBlock::Image(img) = &mut doc.graphic_rendering_blocks[0] {
        img.packed_fields = 0x81; // local palette, size exponent 1
        img.local_color_table = Some(ColorTable { pixels: (0..12).collect() });
    }
    let bytes = doc.encode(&Version::V89a, false);
    let decoded = decode(&bytes, false).unwrap();
    assert_eq!(decoded, doc);
    assert_eq!(decoded.encode(&Version::V89a, false), bytes);
}
