//! The decoder: a single forward pass that turns a raw byte buffer into a
//! [`GifData`] document, or fails deterministically on the first structural
//! violation.
//!
//! The whole decode is specified by the recursive specification functions
//! `dec_*`; every executable decoder is proved to return exactly what its
//! specification function says, errors included.  A graphic control
//! extension is not a block of its own: it is held as the pending modifier
//! and attached to the next rendering block (or dropped if none follows).

use vstd::prelude::*;

use crate::{
    AppExtView, ApplicationExtension, BlockView, ColorTable, CommentExtension, DataSubBlock,
    DataSubBlocks, DocView, ExtBlockView, ExtensionBlock, GifData, GifError,
    GraphicControlExtension, GraphicRenderingBlock, ImageDataView, ImageDescriptor, ImageView,
    LogicalScreenDescriptor, PlainTextExtension, PlainTextView, ScreenView,
    TableBasedImageData, Version, color_table_len, wf_chain, APPLICATION_BLOCK_SIZE,
    APPLICATION_LABEL, BLOCK_TERMINATOR, COMMENT_LABEL, EXTENSION_INTRODUCER,
    GRAPHIC_CONTROL_BLOCK_SIZE, GRAPHIC_CONTROL_LABEL, IMAGE_SEPARATOR, PLAIN_TEXT_BLOCK_SIZE,
    PLAIN_TEXT_LABEL, TRAILER,
};

verus! {

// ----------------------------------------------------------------------------
// Specification of the decode of each component.  Each function takes the
// whole input and the offset it starts reading at, and returns the decoded
// view together with the offset of the first byte it did not consume, or the
// error the decode fails with.
// ----------------------------------------------------------------------------

/// The big-endian 16-bit value at `off`.
pub open spec fn dec_u16(bytes: Seq<u8>, off: int) -> u16 {
    ((bytes[off] as u16) << 8) | (bytes[off + 1] as u16)
}

/// One data sub-block: a length byte, then that many bytes.  A zero length
/// byte is the chain terminator and yields no chunk.
pub open spec fn dec_sub_block(bytes: Seq<u8>, off: int) -> Result<
    (Option<Seq<u8>>, int),
    GifError,
> {
    if off < 0 || off >= bytes.len() {
        Err(GifError::UnexpectedEndOfData { offset: off as usize })
    } else if bytes[off] == BLOCK_TERMINATOR {
        Ok((None, off + 1))
    } else if off + 1 + bytes[off] > bytes.len() {
        Err(GifError::UnexpectedEndOfData { offset: (off + 1) as usize })
    } else {
        Ok((Some(bytes.subrange(off + 1, off + 1 + bytes[off])), off + 1 + bytes[off]))
    }
}

/// A data sub-block chain: chunks until the terminator.
pub open spec fn dec_chain(bytes: Seq<u8>, off: int) -> Result<(Seq<Seq<u8>>, int), GifError>
    decreases bytes.len() - off,
{
    match dec_sub_block(bytes, off) {
        Err(e) => Err(e),
        Ok((None, end)) => Ok((Seq::empty(), end)),
        Ok((Some(chunk), end)) => match dec_chain(bytes, end) {
            Err(e) => Err(e),
            Ok((rest, end2)) => Ok((seq![chunk] + rest, end2)),
        },
    }
}

/// A successful sub-block read consumes at least one byte and stays inside
/// the buffer; a chunk holds between 1 and 255 bytes.
pub proof fn lemma_dec_sub_block_bounds(bytes: Seq<u8>, off: int)
    ensures
        dec_sub_block(bytes, off) matches Ok((c, end)) ==> off < end <= bytes.len() && (c matches
        Some(chunk) ==> 1 <= chunk.len() <= 255),
{
}

/// A successful chain read consumes at least one byte (the terminator),
/// stays inside the buffer, and yields a well-formed chain.
pub proof fn lemma_dec_chain_bounds(bytes: Seq<u8>, off: int)
    ensures
        dec_chain(bytes, off) matches Ok((c, end)) ==> off < end <= bytes.len() && wf_chain(c),
    decreases bytes.len() - off,
{
    lemma_dec_sub_block_bounds(bytes, off);
    match dec_sub_block(bytes, off) {
        Err(_) => {},
        Ok((None, _)) => {},
        Ok((Some(chunk), end)) => {
            lemma_dec_chain_bounds(bytes, end);
            match dec_chain(bytes, end) {
                Err(_) => {},
                Ok((rest, _)) => {
                    assert forall|i: int|
                        0 <= i < (seq![chunk] + rest).len() implies 1 <= ((#[trigger] (seq![chunk]
                        + rest)[i])).len() <= 255 by {
                        if i == 0 {
                            assert((seq![chunk] + rest)[0] == chunk);
                        } else {
                            assert((seq![chunk] + rest)[i] == rest[i - 1]);
                        }
                    }
                },
            }
        },
    }
}

/// The three version-string bytes after the signature.
pub open spec fn dec_version(bytes: Seq<u8>, off: int) -> Result<(Version, int), GifError> {
    if off < 0 || off + 3 > bytes.len() {
        Err(GifError::UnexpectedEndOfData { offset: off as usize })
    } else if bytes[off] == 0x38 && bytes[off + 1] == 0x37 && bytes[off + 2] == 0x61 {
        Ok((Version::V87a, off + 3))
    } else if bytes[off] == 0x38 && bytes[off + 1] == 0x39 && bytes[off + 2] == 0x61 {
        Ok((Version::V89a, off + 3))
    } else {
        Err(GifError::InvalidVersion { offset: off as usize })
    }
}

/// The screen descriptor: seven fixed bytes, then the global palette if the
/// flag bit of the packed fields is set.
pub open spec fn dec_screen(bytes: Seq<u8>, off: int) -> Result<(ScreenView, int), GifError> {
    if off < 0 || off + 7 > bytes.len() {
        Err(GifError::UnexpectedEndOfData { offset: off as usize })
    } else {
        let packed = bytes[off + 4];
        let head = ScreenView {
            logical_screen_width: dec_u16(bytes, off),
            logical_screen_height: dec_u16(bytes, off + 2),
            packed_fields: packed,
            background_color_index: bytes[off + 5],
            pixel_aspect_ratio: bytes[off + 6],
            global_color_table: None,
        };
        if packed >> 7 == 1 {
            let size = color_table_len(packed);
            if off + 7 + size > bytes.len() {
                Err(GifError::UnexpectedEndOfData { offset: (off + 7) as usize })
            } else {
                Ok(
                    (
                        ScreenView {
                            global_color_table: Some(bytes.subrange(off + 7, off + 7 + size)),
                            ..head
                        },
                        off + 7 + size,
                    ),
                )
            }
        } else {
            Ok((head, off + 7))
        }
    }
}

/// A graphic control extension body: fixed block size, packed fields, delay
/// time, transparent color index, terminator.
pub open spec fn dec_gce(bytes: Seq<u8>, off: int) -> Result<
    (GraphicControlExtension, int),
    GifError,
> {
    if off < 0 || off >= bytes.len() {
        Err(GifError::UnexpectedEndOfData { offset: off as usize })
    } else if bytes[off] != GRAPHIC_CONTROL_BLOCK_SIZE {
        Err(
            GifError::BlockSizeMismatch {
                offset: off as usize,
                expected: GRAPHIC_CONTROL_BLOCK_SIZE,
                actual: bytes[off],
            },
        )
    } else if off + 6 > bytes.len() {
        Err(GifError::UnexpectedEndOfData { offset: (off + 1) as usize })
    } else if bytes[off + 5] != BLOCK_TERMINATOR {
        Err(GifError::InvalidBlockTerminator { offset: (off + 5) as usize, actual: bytes[off + 5] })
    } else {
        Ok(
            (
                GraphicControlExtension {
                    packed_fields: bytes[off + 1],
                    delay_time: dec_u16(bytes, off + 2),
                    transparent_color_index: bytes[off + 4],
                },
                off + 6,
            ),
        )
    }
}

/// An application extension body: fixed block size, 8-byte identifier,
/// 3-byte authentication code, payload chain.
pub open spec fn dec_app(bytes: Seq<u8>, off: int) -> Result<(AppExtView, int), GifError> {
    if off < 0 || off >= bytes.len() {
        Err(GifError::UnexpectedEndOfData { offset: off as usize })
    } else if bytes[off] != APPLICATION_BLOCK_SIZE {
        Err(
            GifError::BlockSizeMismatch {
                offset: off as usize,
                expected: APPLICATION_BLOCK_SIZE,
                actual: bytes[off],
            },
        )
    } else if off + 12 > bytes.len() {
        Err(GifError::UnexpectedEndOfData { offset: (off + 1) as usize })
    } else {
        match dec_chain(bytes, off + 12) {
            Err(e) => Err(e),
            Ok((chain, end)) => Ok(
                (
                    AppExtView {
                        identifier: bytes.subrange(off + 1, off + 9),
                        authentication_code: bytes.subrange(off + 9, off + 12),
                        data: chain,
                    },
                    end,
                ),
            ),
        }
    }
}

/// A plain text extension body.  The pending graphic control modifier, if
/// any, is absorbed into the block.
pub open spec fn dec_plain_text(
    bytes: Seq<u8>,
    off: int,
    pending: Option<GraphicControlExtension>,
) -> Result<(PlainTextView, int), GifError> {
    if off < 0 || off >= bytes.len() {
        Err(GifError::UnexpectedEndOfData { offset: off as usize })
    } else if bytes[off] != PLAIN_TEXT_BLOCK_SIZE {
        Err(
            GifError::BlockSizeMismatch {
                offset: off as usize,
                expected: PLAIN_TEXT_BLOCK_SIZE,
                actual: bytes[off],
            },
        )
    } else if off + 13 > bytes.len() {
        Err(GifError::UnexpectedEndOfData { offset: (off + 1) as usize })
    } else {
        match dec_chain(bytes, off + 13) {
            Err(e) => Err(e),
            Ok((chain, end)) => Ok(
                (
                    PlainTextView {
                        text_grid_left_position: dec_u16(bytes, off + 1),
                        text_grid_top_position: dec_u16(bytes, off + 3),
                        text_grid_width: dec_u16(bytes, off + 5),
                        text_grid_height: dec_u16(bytes, off + 7),
                        character_cell_width: bytes[off + 9],
                        character_cell_height: bytes[off + 10],
                        text_foreground_color_index: bytes[off + 11],
                        text_background_color_index: bytes[off + 12],
                        data: chain,
                        graphic_control_extension: pending,
                    },
                    end,
                ),
            ),
        }
    }
}

/// An image's pixel payload: the LZW minimum code size byte, then the data
/// chain.
pub open spec fn dec_image_data(bytes: Seq<u8>, off: int) -> Result<(ImageDataView, int), GifError> {
    if off < 0 || off >= bytes.len() {
        Err(GifError::UnexpectedEndOfData { offset: off as usize })
    } else {
        match dec_chain(bytes, off + 1) {
            Err(e) => Err(e),
            Ok((chain, end)) => Ok(
                (ImageDataView { lzw_minimum_code_size: bytes[off], image_data: chain }, end),
            ),
        }
    }
}

/// An image descriptor body (after the separator byte): geometry, packed
/// fields, optional local palette, pixel payload.  The pending graphic
/// control modifier, if any, is absorbed into the block.
pub open spec fn dec_image(
    bytes: Seq<u8>,
    off: int,
    pending: Option<GraphicControlExtension>,
) -> Result<(ImageView, int), GifError> {
    if off < 0 || off + 9 > bytes.len() {
        Err(GifError::UnexpectedEndOfData { offset: off as usize })
    } else {
        let packed = bytes[off + 8];
        let head = ImageView {
            image_left_position: dec_u16(bytes, off),
            image_top_position: dec_u16(bytes, off + 2),
            image_width: dec_u16(bytes, off + 4),
            image_height: dec_u16(bytes, off + 6),
            packed_fields: packed,
            local_color_table: None,
            image_data: ImageDataView { lzw_minimum_code_size: 0, image_data: Seq::empty() },
            graphic_control_extension: pending,
        };
        if packed >> 7 == 1 {
            let size = color_table_len(packed);
            if off + 9 + size > bytes.len() {
                Err(GifError::UnexpectedEndOfData { offset: (off + 9) as usize })
            } else {
                match dec_image_data(bytes, off + 9 + size) {
                    Err(e) => Err(e),
                    Ok((payload, end)) => Ok(
                        (
                            ImageView {
                                local_color_table: Some(bytes.subrange(off + 9, off + 9 + size)),
                                image_data: payload,
                                ..head
                            },
                            end,
                        ),
                    ),
                }
            }
        } else {
            match dec_image_data(bytes, off + 9) {
                Err(e) => Err(e),
                Ok((payload, end)) => Ok((ImageView { image_data: payload, ..head }, end)),
            }
        }
    }
}

/// One extension block, dispatched on the label byte at `off`.  Returns the
/// decoded block (or nothing, for a comment that is being discarded), the
/// new pending graphic control modifier, and the next offset.
pub open spec fn dec_ext(
    bytes: Seq<u8>,
    off: int,
    pending: Option<GraphicControlExtension>,
    discard_comments: bool,
) -> Result<(Option<ExtBlockView>, Option<GraphicControlExtension>, int), GifError> {
    if off < 0 || off >= bytes.len() {
        Err(GifError::UnexpectedEndOfData { offset: off as usize })
    } else if bytes[off] == GRAPHIC_CONTROL_LABEL {
        match dec_gce(bytes, off + 1) {
            Err(e) => Err(e),
            Ok((g, end)) => Ok((Some(ExtBlockView::GraphicControl(g)), Some(g), end)),
        }
    } else if bytes[off] == COMMENT_LABEL {
        match dec_chain(bytes, off + 1) {
            Err(e) => Err(e),
            Ok((chain, end)) => if discard_comments {
                Ok((None, pending, end))
            } else {
                Ok((Some(ExtBlockView::Comment(chain)), pending, end))
            },
        }
    } else if bytes[off] == PLAIN_TEXT_LABEL {
        match dec_plain_text(bytes, off + 1, pending) {
            Err(e) => Err(e),
            Ok((p, end)) => Ok((Some(ExtBlockView::PlainText(p)), None, end)),
        }
    } else if bytes[off] == APPLICATION_LABEL {
        match dec_app(bytes, off + 1) {
            Err(e) => Err(e),
            Ok((a, end)) => Ok((Some(ExtBlockView::Application(a)), pending, end)),
        }
    } else {
        Err(GifError::InvalidExtensionLabel { label: bytes[off], offset: (off + 1) as usize })
    }
}

/// A successful extension decode moves the offset forward and stays inside
/// the buffer.
pub proof fn lemma_dec_ext_bounds(
    bytes: Seq<u8>,
    off: int,
    pending: Option<GraphicControlExtension>,
    discard_comments: bool,
)
    ensures
        dec_ext(bytes, off, pending, discard_comments) matches Ok((_, _, end)) ==> off < end
            <= bytes.len(),
{
    lemma_dec_chain_bounds(bytes, off + 1);
    lemma_dec_chain_bounds(bytes, off + 13 + 1);
    if 0 <= off < bytes.len() {
        if bytes[off] == PLAIN_TEXT_LABEL {
            lemma_dec_chain_bounds(bytes, off + 1 + 13);
        } else if bytes[off] == APPLICATION_LABEL {
            lemma_dec_chain_bounds(bytes, off + 1 + 12);
        }
    }
}

/// A successful image decode moves the offset forward and stays inside the
/// buffer.
pub proof fn lemma_dec_image_bounds(
    bytes: Seq<u8>,
    off: int,
    pending: Option<GraphicControlExtension>,
)
    ensures
        dec_image(bytes, off, pending) matches Ok((_, end)) ==> off < end <= bytes.len(),
{
    if 0 <= off && off + 9 <= bytes.len() {
        let packed = bytes[off + 8];
        if packed >> 7 == 1 {
            lemma_dec_chain_bounds(bytes, off + 9 + color_table_len(packed) + 1);
        } else {
            lemma_dec_chain_bounds(bytes, off + 9 + 1);
        }
    }
}

/// The stream state machine after the header: dispatch on the marker byte
/// at `off` until the trailer, collecting application extensions, comment
/// extensions and rendering blocks, and threading the pending graphic
/// control modifier.  A plain text block is dropped when the screen has no
/// global palette (`has_global_table`); its absorbed modifier is dropped
/// with it.
pub open spec fn dec_stream(
    bytes: Seq<u8>,
    off: int,
    pending: Option<GraphicControlExtension>,
    has_global_table: bool,
    discard_comments: bool,
) -> Result<(Seq<AppExtView>, Seq<Seq<Seq<u8>>>, Seq<BlockView>), GifError>
    decreases bytes.len() - off,
{
    if off < 0 || off >= bytes.len() {
        Err(GifError::UnexpectedEndOfData { offset: off as usize })
    } else if bytes[off] == TRAILER {
        Ok((Seq::empty(), Seq::empty(), Seq::empty()))
    } else if bytes[off] == EXTENSION_INTRODUCER {
        match dec_ext(bytes, off + 1, pending, discard_comments) {
            Err(e) => Err(e),
            Ok((blk, new_pending, end)) => {
                proof {
                    lemma_dec_ext_bounds(bytes, off + 1, pending, discard_comments);
                }
                match dec_stream(bytes, end, new_pending, has_global_table, discard_comments) {
                    Err(e) => Err(e),
                    Ok((apps, comments, blocks)) => match blk {
                        None => Ok((apps, comments, blocks)),
                        Some(ExtBlockView::GraphicControl(_)) => Ok((apps, comments, blocks)),
                        Some(ExtBlockView::Application(a)) => Ok(
                            (seq![a] + apps, comments, blocks),
                        ),
                        Some(ExtBlockView::Comment(c)) => Ok((apps, seq![c] + comments, blocks)),
                        Some(ExtBlockView::PlainText(p)) => if has_global_table {
                            Ok((apps, comments, seq![BlockView::PlainText(p)] + blocks))
                        } else {
                            Ok((apps, comments, blocks))
                        },
                    },
                }
            },
        }
    } else if bytes[off] == IMAGE_SEPARATOR {
        match dec_image(bytes, off + 1, pending) {
            Err(e) => Err(e),
            Ok((img, end)) => {
                proof {
                    lemma_dec_image_bounds(bytes, off + 1, pending);
                }
                match dec_stream(bytes, end, None, has_global_table, discard_comments) {
                    Err(e) => Err(e),
                    Ok((apps, comments, blocks)) => Ok(
                        (apps, comments, seq![BlockView::Image(img)] + blocks),
                    ),
                }
            },
        }
    } else {
        Err(GifError::UnknownStreamByte { byte: bytes[off], offset: off as usize })
    }
}

/// The three signature bytes `G`, `I`, `F`, checked one by one.
pub open spec fn dec_signature(bytes: Seq<u8>) -> Result<int, GifError> {
    if bytes.len() < 1 {
        Err(GifError::UnexpectedEndOfData { offset: 0 })
    } else if bytes[0] != 0x47 {
        Err(GifError::SignatureMismatch { offset: 0, expected: 0x47, actual: bytes[0] })
    } else if bytes.len() < 2 {
        Err(GifError::UnexpectedEndOfData { offset: 1 })
    } else if bytes[1] != 0x49 {
        Err(GifError::SignatureMismatch { offset: 1, expected: 0x49, actual: bytes[1] })
    } else if bytes.len() < 3 {
        Err(GifError::UnexpectedEndOfData { offset: 2 })
    } else if bytes[2] != 0x46 {
        Err(GifError::SignatureMismatch { offset: 2, expected: 0x46, actual: bytes[2] })
    } else {
        Ok(3)
    }
}

/// The whole decode: signature, version, screen descriptor, then the stream
/// state machine until the trailer.
pub open spec fn dec_doc(bytes: Seq<u8>, discard_comments: bool) -> Result<DocView, GifError> {
    match dec_signature(bytes) {
        Err(e) => Err(e),
        Ok(off) => match dec_version(bytes, off) {
            Err(e) => Err(e),
            Ok((version, off)) => match dec_screen(bytes, off) {
                Err(e) => Err(e),
                Ok((screen, off)) => match dec_stream(
                    bytes,
                    off,
                    None,
                    screen.global_color_table is Some,
                    discard_comments,
                ) {
                    Err(e) => Err(e),
                    Ok((apps, comments, blocks)) => Ok(
                        DocView {
                            version,
                            logical_screen_descriptor: screen,
                            application_extensions: apps,
                            comment_extensions: comments,
                            graphic_rendering_blocks: blocks,
                        },
                    ),
                },
            },
        },
    }
}

// ----------------------------------------------------------------------------
// Executable decoders.
// ----------------------------------------------------------------------------

/// The byte at offset `i`.
fn byte_at(bytes: &[u8], i: usize) -> (r: u8)
    requires
        i < bytes@.len(),
    ensures
        r == bytes@[i as int],
{
    *vstd::slice::slice_index_get(bytes, i)
}

/// The big-endian 16-bit value at `off`.
fn read_u16(bytes: &[u8], off: usize) -> (r: u16)
    requires
        off + 2 <= bytes@.len(),
    ensures
        r == dec_u16(bytes@, off as int),
{
    let n = bytes.len();
    assert(off + 2 <= n);
    let hi = byte_at(bytes, off);
    let lo = byte_at(bytes, off + 1);
    ((hi as u16) << 8) | (lo as u16)
}

/// A copy of bytes `from` up to but not including `to`.
fn bytes_between(bytes: &[u8], from: usize, to: usize) -> (r: Vec<u8>)
    requires
        from <= to <= bytes@.len(),
    ensures
        r@ == bytes@.subrange(from as int, to as int),
{
    vstd::slice::slice_to_vec(vstd::slice::slice_subrange(bytes, from, to))
}

impl Version {
    /// Reads the three version-string bytes at `off`.
    pub fn decode(bytes: &[u8], off: usize) -> (r: Result<(Version, usize), GifError>)
        ensures
            match r {
                Ok((v, end)) => dec_version(bytes@, off as int) == Ok::<(Version, int), GifError>(
                    (v, end as int),
                ),
                Err(e) => dec_version(bytes@, off as int) == Err::<(Version, int), GifError>(e),
            },
    {
        let n = bytes.len();
        if off >= n || n - off < 3 {
            return Err(GifError::UnexpectedEndOfData { offset: off });
        }
        let b0 = byte_at(bytes, off);
        let b1 = byte_at(bytes, off + 1);
        let b2 = byte_at(bytes, off + 2);
        if b0 == 0x38 && b1 == 0x37 && b2 == 0x61 {
            Ok((Version::V87a, off + 3))
        } else if b0 == 0x38 && b1 == 0x39 && b2 == 0x61 {
            Ok((Version::V89a, off + 3))
        } else {
            Err(GifError::InvalidVersion { offset: off })
        }
    }
}

impl GraphicControlExtension {
    /// Decodes a graphic control extension body at `off`.
    pub fn decode(bytes: &[u8], off: usize) -> (r: Result<
        (GraphicControlExtension, usize),
        GifError,
    >)
        ensures
            match r {
                Ok((g, end)) => dec_gce(bytes@, off as int) == Ok::<
                    (GraphicControlExtension, int),
                    GifError,
                >((g, end as int)),
                Err(e) => dec_gce(bytes@, off as int) == Err::<
                    (GraphicControlExtension, int),
                    GifError,
                >(e),
            },
    {
        let n = bytes.len();
        if off >= n {
            return Err(GifError::UnexpectedEndOfData { offset: off });
        }
        let size = byte_at(bytes, off);
        if size != GRAPHIC_CONTROL_BLOCK_SIZE {
            return Err(
                GifError::BlockSizeMismatch {
                    offset: off,
                    expected: GRAPHIC_CONTROL_BLOCK_SIZE,
                    actual: size,
                },
            );
        }
        if n - off < 6 {
            return Err(GifError::UnexpectedEndOfData { offset: off + 1 });
        }
        let packed_fields = byte_at(bytes, off + 1);
        let delay_time = read_u16(bytes, off + 2);
        let transparent_color_index = byte_at(bytes, off + 4);
        let term = byte_at(bytes, off + 5);
        if term != BLOCK_TERMINATOR {
            return Err(GifError::InvalidBlockTerminator { offset: off + 5, actual: term });
        }
        Ok((GraphicControlExtension { packed_fields, delay_time, transparent_color_index }, off + 6))
    }
}

impl DataSubBlock {
    /// Decodes one data sub-block at `off`; `None` is the chain terminator.
    pub fn decode(bytes: &[u8], off: usize) -> (r: Result<(Option<DataSubBlock>, usize), GifError>)
        ensures
            match r {
                Ok((b, end)) => ({
                    &&& dec_sub_block(bytes@, off as int) == Ok::<(Option<Seq<u8>>, int), GifError>(
                        (
                            match b {
                                Some(b) => Some(b@),
                                None => None,
                            },
                            end as int,
                        ),
                    )
                    &&& (b matches Some(b) ==> b.wf())
                }),
                Err(e) => dec_sub_block(bytes@, off as int) == Err::<
                    (Option<Seq<u8>>, int),
                    GifError,
                >(e),
            },
    {
        let n = bytes.len();
        if off >= n {
            return Err(GifError::UnexpectedEndOfData { offset: off });
        }
        let size = byte_at(bytes, off);
        if size == BLOCK_TERMINATOR {
            return Ok((None, off + 1));
        }
        if n - (off + 1) < size as usize {
            return Err(GifError::UnexpectedEndOfData { offset: off + 1 });
        }
        let data = bytes_between(bytes, off + 1, off + 1 + size as usize);
        Ok((Some(DataSubBlock { block_size: size, data }), off + 1 + size as usize))
    }
}

/// A chain decode that starts at the front is a chain decode from the
/// current position, with the chunks already read put in front of it.
pub open spec fn chain_compose(
    prefix: Seq<Seq<u8>>,
    rest: Result<(Seq<Seq<u8>>, int), GifError>,
) -> Result<(Seq<Seq<u8>>, int), GifError> {
    match rest {
        Ok((chunks, end)) => Ok((prefix + chunks, end)),
        Err(e) => Err(e),
    }
}

impl DataSubBlocks {
    /// Decodes a whole data sub-block chain at `off`, terminator included.
    #[verifier::loop_isolation(false)]
    pub fn decode(bytes: &[u8], off: usize) -> (r: Result<(DataSubBlocks, usize), GifError>)
        ensures
            match r {
                Ok((d, end)) => dec_chain(bytes@, off as int) == Ok::<
                    (Seq<Seq<u8>>, int),
                    GifError,
                >((d@, end as int)) && d.wf(),
                Err(e) => dec_chain(bytes@, off as int) == Err::<(Seq<Seq<u8>>, int), GifError>(e),
            },
    {
        let n = bytes.len();
        if off >= n {
            return Err(GifError::UnexpectedEndOfData { offset: off });
        }
        let ghost f = |b: DataSubBlock| b@;
        let mut blocks: Vec<DataSubBlock> = Vec::new();
        let mut cur = off;
        loop
            invariant
                off <= cur <= bytes@.len(),
                forall|i: int| 0 <= i < blocks@.len() ==> (#[trigger] blocks@[i]).wf(),
                dec_chain(bytes@, off as int) == chain_compose(
                    blocks@.map_values(f),
                    dec_chain(bytes@, cur as int),
                ),
            decreases bytes@.len() - cur,
        {
            match DataSubBlock::decode(bytes, cur) {
                Err(e) => {
                    return Err(e);
                },
                Ok((None, end)) => {
                    proof {
                        assert(blocks@.map_values(f) + Seq::<Seq<u8>>::empty() =~= blocks@
                            .map_values(f));
                    }
                    return Ok((DataSubBlocks { blocks }, end));
                },
                Ok((Some(b), end)) => {
                    proof {
                        lemma_dec_sub_block_bounds(bytes@, cur as int);
                        let prev = blocks@.map_values(f);
                        let chunk = b@;
                        match dec_chain(bytes@, end as int) {
                            Ok((rest, end2)) => {
                                assert(prev + (seq![chunk] + rest) =~= prev.push(chunk) + rest);
                            },
                            Err(_) => {},
                        }
                        assert(blocks@.push(b).map_values(f) =~= prev.push(chunk));
                    }
                    blocks.push(b);
                    cur = end;
                },
            }
        }
    }
}

impl LogicalScreenDescriptor {
    /// Decodes the screen descriptor at `off`, global palette included.
    pub fn decode(bytes: &[u8], off: usize) -> (r: Result<
        (LogicalScreenDescriptor, usize),
        GifError,
    >)
        ensures
            match r {
                Ok((s, end)) => dec_screen(bytes@, off as int) == Ok::<(ScreenView, int), GifError>(
                    (s@, end as int),
                ) && s.wf() && off <= end <= bytes@.len(),
                Err(e) => dec_screen(bytes@, off as int) == Err::<(ScreenView, int), GifError>(e),
            },
    {
        let n = bytes.len();
        if off >= n || n - off < 7 {
            return Err(GifError::UnexpectedEndOfData { offset: off });
        }
        let logical_screen_width = read_u16(bytes, off);
        let logical_screen_height = read_u16(bytes, off + 2);
        let packed_fields = byte_at(bytes, off + 4);
        let background_color_index = byte_at(bytes, off + 5);
        let pixel_aspect_ratio = byte_at(bytes, off + 6);
        if packed_fields >> 7 == 1 {
            let p = packed_fields;
            proof {
                assert(((p & 7) as u64) < 64) by (bit_vector);
                assert(6u64 << ((p & 7) as u64) <= 768) by (bit_vector);
            }
            let size = (6u64 << ((p & 7) as u64)) as usize;
            if n - (off + 7) < size {
                return Err(GifError::UnexpectedEndOfData { offset: off + 7 });
            }
            let pixels = bytes_between(bytes, off + 7, off + 7 + size);
            let s = LogicalScreenDescriptor {
                logical_screen_width,
                logical_screen_height,
                packed_fields,
                background_color_index,
                pixel_aspect_ratio,
                global_color_table: Some(ColorTable { pixels }),
            };
            proof {
                assert(size as int == color_table_len(p));
            }
            Ok((s, off + 7 + size))
        } else {
            let p = packed_fields;
            proof {
                assert(p >> 7 == 1 || p >> 7 == 0) by (bit_vector);
            }
            let s = LogicalScreenDescriptor {
                logical_screen_width,
                logical_screen_height,
                packed_fields,
                background_color_index,
                pixel_aspect_ratio,
                global_color_table: None,
            };
            Ok((s, off + 7))
        }
    }
}

impl ApplicationExtension {
    /// Decodes an application extension body at `off`.
    pub fn decode(bytes: &[u8], off: usize) -> (r: Result<(ApplicationExtension, usize), GifError>)
        ensures
            match r {
                Ok((a, end)) => dec_app(bytes@, off as int) == Ok::<(AppExtView, int), GifError>(
                    (a@, end as int),
                ) && a.wf(),
                Err(e) => dec_app(bytes@, off as int) == Err::<(AppExtView, int), GifError>(e),
            },
    {
        let n = bytes.len();
        if off >= n {
            return Err(GifError::UnexpectedEndOfData { offset: off });
        }
        let size = byte_at(bytes, off);
        if size != APPLICATION_BLOCK_SIZE {
            return Err(
                GifError::BlockSizeMismatch {
                    offset: off,
                    expected: APPLICATION_BLOCK_SIZE,
                    actual: size,
                },
            );
        }
        if n - off < 12 {
            return Err(GifError::UnexpectedEndOfData { offset: off + 1 });
        }
        let identifier = bytes_between(bytes, off + 1, off + 9);
        let authentication_code = bytes_between(bytes, off + 9, off + 12);
        match DataSubBlocks::decode(bytes, off + 12) {
            Err(e) => Err(e),
            Ok((data, end)) => {
                proof {
                    data.lemma_wf_view();
                }
                Ok((ApplicationExtension { identifier, authentication_code, data }, end))
            },
        }
    }
}

impl CommentExtension {
    /// Decodes a comment extension body (just a chain) at `off`.
    pub fn decode(bytes: &[u8], off: usize) -> (r: Result<(CommentExtension, usize), GifError>)
        ensures
            match r {
                Ok((c, end)) => dec_chain(bytes@, off as int) == Ok::<
                    (Seq<Seq<u8>>, int),
                    GifError,
                >((c@, end as int)) && c.wf(),
                Err(e) => dec_chain(bytes@, off as int) == Err::<(Seq<Seq<u8>>, int), GifError>(e),
            },
    {
        match DataSubBlocks::decode(bytes, off) {
            Err(e) => Err(e),
            Ok((data, end)) => {
                proof {
                    data.lemma_wf_view();
                }
                Ok((CommentExtension { data }, end))
            },
        }
    }
}

impl PlainTextExtension {
    /// Decodes a plain text extension body at `off`, absorbing the pending
    /// graphic control modifier.
    pub fn decode(bytes: &[u8], off: usize, pending: Option<GraphicControlExtension>) -> (r: Result<
        (PlainTextExtension, usize),
        GifError,
    >)
        ensures
            match r {
                Ok((p, end)) => dec_plain_text(bytes@, off as int, pending) == Ok::<
                    (PlainTextView, int),
                    GifError,
                >((p@, end as int)) && p.wf(),
                Err(e) => dec_plain_text(bytes@, off as int, pending) == Err::<
                    (PlainTextView, int),
                    GifError,
                >(e),
            },
    {
        let n = bytes.len();
        if off >= n {
            return Err(GifError::UnexpectedEndOfData { offset: off });
        }
        let size = byte_at(bytes, off);
        if size != PLAIN_TEXT_BLOCK_SIZE {
            return Err(
                GifError::BlockSizeMismatch {
                    offset: off,
                    expected: PLAIN_TEXT_BLOCK_SIZE,
                    actual: size,
                },
            );
        }
        if n - off < 13 {
            return Err(GifError::UnexpectedEndOfData { offset: off + 1 });
        }
        let text_grid_left_position = read_u16(bytes, off + 1);
        let text_grid_top_position = read_u16(bytes, off + 3);
        let text_grid_width = read_u16(bytes, off + 5);
        let text_grid_height = read_u16(bytes, off + 7);
        let character_cell_width = byte_at(bytes, off + 9);
        let character_cell_height = byte_at(bytes, off + 10);
        let text_foreground_color_index = byte_at(bytes, off + 11);
        let text_background_color_index = byte_at(bytes, off + 12);
        match DataSubBlocks::decode(bytes, off + 13) {
            Err(e) => Err(e),
            Ok((data, end)) => {
                proof {
                    data.lemma_wf_view();
                }
                Ok(
                    (
                        PlainTextExtension {
                            text_grid_left_position,
                            text_grid_top_position,
                            text_grid_width,
                            text_grid_height,
                            character_cell_width,
                            character_cell_height,
                            text_foreground_color_index,
                            text_background_color_index,
                            data,
                            graphic_control_extension: pending,
                        },
                        end,
                    ),
                )
            },
        }
    }
}

impl TableBasedImageData {
    /// Decodes an image's pixel payload at `off`.
    pub fn decode(bytes: &[u8], off: usize) -> (r: Result<(TableBasedImageData, usize), GifError>)
        ensures
            match r {
                Ok((t, end)) => dec_image_data(bytes@, off as int) == Ok::<
                    (ImageDataView, int),
                    GifError,
                >((t@, end as int)) && t.wf(),
                Err(e) => dec_image_data(bytes@, off as int) == Err::<
                    (ImageDataView, int),
                    GifError,
                >(e),
            },
    {
        let n = bytes.len();
        if off >= n {
            return Err(GifError::UnexpectedEndOfData { offset: off });
        }
        let lzw_minimum_code_size = byte_at(bytes, off);
        match DataSubBlocks::decode(bytes, off + 1) {
            Err(e) => Err(e),
            Ok((image_data, end)) => {
                proof {
                    image_data.lemma_wf_view();
                }
                Ok((TableBasedImageData { lzw_minimum_code_size, image_data }, end))
            },
        }
    }
}

impl ImageDescriptor {
    /// Decodes an image descriptor body at `off` (after the separator),
    /// absorbing the pending graphic control modifier.
    pub fn decode(bytes: &[u8], off: usize, pending: Option<GraphicControlExtension>) -> (r: Result<
        (ImageDescriptor, usize),
        GifError,
    >)
        ensures
            match r {
                Ok((img, end)) => dec_image(bytes@, off as int, pending) == Ok::<
                    (ImageView, int),
                    GifError,
                >((img@, end as int)) && img.wf(),
                Err(e) => dec_image(bytes@, off as int, pending) == Err::<
                    (ImageView, int),
                    GifError,
                >(e),
            },
    {
        let n = bytes.len();
        if off >= n || n - off < 9 {
            return Err(GifError::UnexpectedEndOfData { offset: off });
        }
        let image_left_position = read_u16(bytes, off);
        let image_top_position = read_u16(bytes, off + 2);
        let image_width = read_u16(bytes, off + 4);
        let image_height = read_u16(bytes, off + 6);
        let packed_fields = byte_at(bytes, off + 8);
        let local_color_table: Option<ColorTable>;
        let tail_off: usize;
        if packed_fields >> 7 == 1 {
            let p = packed_fields;
            proof {
                assert(((p & 7) as u64) < 64) by (bit_vector);
                assert(6u64 << ((p & 7) as u64) <= 768) by (bit_vector);
            }
            let size = (6u64 << ((p & 7) as u64)) as usize;
            if n - (off + 9) < size {
                return Err(GifError::UnexpectedEndOfData { offset: off + 9 });
            }
            let pixels = bytes_between(bytes, off + 9, off + 9 + size);
            local_color_table = Some(ColorTable { pixels });
            tail_off = off + 9 + size;
        } else {
            let p = packed_fields;
            proof {
                assert(p >> 7 == 1 || p >> 7 == 0) by (bit_vector);
            }
            local_color_table = None;
            tail_off = off + 9;
        }
        match TableBasedImageData::decode(bytes, tail_off) {
            Err(e) => Err(e),
            Ok((image_data, end)) => Ok(
                (
                    ImageDescriptor {
                        image_left_position,
                        image_top_position,
                        image_width,
                        image_height,
                        packed_fields,
                        local_color_table,
                        image_data,
                        graphic_control_extension: pending,
                    },
                    end,
                ),
            ),
        }
    }
}

impl ExtensionBlock {
    /// Dispatches on the label byte at `off` and decodes one extension
    /// block.  Returns the block (or nothing, for a discarded comment), the
    /// new pending graphic control modifier, and the next offset.
    pub fn decode(
        bytes: &[u8],
        off: usize,
        pending: Option<GraphicControlExtension>,
        discard_comments: bool,
    ) -> (r: Result<(Option<ExtensionBlock>, Option<GraphicControlExtension>, usize), GifError>)
        ensures
            match r {
                Ok((blk, np, end)) => ({
                    &&& dec_ext(bytes@, off as int, pending, discard_comments) == Ok::<
                        (Option<ExtBlockView>, Option<GraphicControlExtension>, int),
                        GifError,
                    >(
                        (
                            match blk {
                                Some(b) => Some(b@),
                                None => None,
                            },
                            np,
                            end as int,
                        ),
                    )
                    &&& (blk matches Some(b) ==> b.wf())
                }),
                Err(e) => dec_ext(bytes@, off as int, pending, discard_comments) == Err::<
                    (Option<ExtBlockView>, Option<GraphicControlExtension>, int),
                    GifError,
                >(e),
            },
    {
        let n = bytes.len();
        if off >= n {
            return Err(GifError::UnexpectedEndOfData { offset: off });
        }
        let label = byte_at(bytes, off);
        if label == GRAPHIC_CONTROL_LABEL {
            match GraphicControlExtension::decode(bytes, off + 1) {
                Err(e) => Err(e),
                Ok((g, end)) => Ok((Some(ExtensionBlock::GraphicControl(g)), Some(g), end)),
            }
        } else if label == COMMENT_LABEL {
            match CommentExtension::decode(bytes, off + 1) {
                Err(e) => Err(e),
                Ok((c, end)) => if discard_comments {
                    Ok((None, pending, end))
                } else {
                    Ok((Some(ExtensionBlock::Comment(c)), pending, end))
                },
            }
        } else if label == PLAIN_TEXT_LABEL {
            match PlainTextExtension::decode(bytes, off + 1, pending) {
                Err(e) => Err(e),
                Ok((p, end)) => Ok((Some(ExtensionBlock::PlainText(p)), None, end)),
            }
        } else if label == APPLICATION_LABEL {
            match ApplicationExtension::decode(bytes, off + 1) {
                Err(e) => Err(e),
                Ok((a, end)) => Ok((Some(ExtensionBlock::Application(a)), pending, end)),
            }
        } else {
            Err(GifError::InvalidExtensionLabel { label, offset: off + 1 })
        }
    }
}

/// A stream decode that starts at the front is a stream decode from the
/// current position, with the items already collected put in front of it.
pub open spec fn stream_compose(
    apps: Seq<AppExtView>,
    comments: Seq<Seq<Seq<u8>>>,
    blocks: Seq<BlockView>,
    rest: Result<(Seq<AppExtView>, Seq<Seq<Seq<u8>>>, Seq<BlockView>), GifError>,
) -> Result<(Seq<AppExtView>, Seq<Seq<Seq<u8>>>, Seq<BlockView>), GifError> {
    match rest {
        Ok(t) => Ok((apps + t.0, comments + t.1, blocks + t.2)),
        Err(e) => Err(e),
    }
}


/// Pushing a viewed element commutes with taking views.
proof fn lemma_apps_view_push(v: Seq<ApplicationExtension>, a: ApplicationExtension)
    ensures
        crate::apps_view(v.push(a)) == crate::apps_view(v).push(a@),
{
    assert(crate::apps_view(v.push(a)) =~= crate::apps_view(v).push(a@));
}

/// Pushing a viewed element commutes with taking views.
proof fn lemma_comments_view_push(v: Seq<CommentExtension>, c: CommentExtension)
    ensures
        crate::comments_view(v.push(c)) == crate::comments_view(v).push(c@),
{
    assert(crate::comments_view(v.push(c)) =~= crate::comments_view(v).push(c@));
}

/// Pushing a viewed element commutes with taking views.
proof fn lemma_blocks_view_push(v: Seq<GraphicRenderingBlock>, g: GraphicRenderingBlock)
    ensures
        crate::blocks_view(v.push(g)) == crate::blocks_view(v).push(g@),
{
    assert(crate::blocks_view(v.push(g)) =~= crate::blocks_view(v).push(g@));
}

/// Moving the first element of a prepended singleton into the prefix.
proof fn lemma_shift_one<T>(s: Seq<T>, x: T, rest: Seq<T>)
    ensures
        s + (seq![x] + rest) == s.push(x) + rest,
{
    assert(s + (seq![x] + rest) =~= s.push(x) + rest);
}

/// Appending an empty sequence changes nothing.
proof fn lemma_add_empty<T>(s: Seq<T>)
    ensures
        s + Seq::<T>::empty() == s,
{
    assert(s + Seq::<T>::empty() =~= s);
}

/// Runs the stream state machine: starting at `off` (just after the screen
/// descriptor), collects application extensions, comment extensions and
/// rendering blocks until the trailer byte.
#[verifier::loop_isolation(false)]
#[verifier::rlimit(100)]
fn decode_stream(bytes: &[u8], off: usize, has_global_table: bool, discard_comments: bool) -> (r:
    Result<(Vec<ApplicationExtension>, Vec<CommentExtension>, Vec<GraphicRenderingBlock>), GifError>)
    requires
        off <= bytes@.len(),
    ensures
        match r {
            Ok((apps, coms, blocks)) => ({
                &&& dec_stream(bytes@, off as int, None, has_global_table, discard_comments)
                    == Ok::<(Seq<AppExtView>, Seq<Seq<Seq<u8>>>, Seq<BlockView>), GifError>(
                    (crate::apps_view(apps@), crate::comments_view(coms@), crate::blocks_view(
                        blocks@,
                    )),
                )
                &&& forall|i: int| 0 <= i < apps@.len() ==> (#[trigger] apps@[i]).wf()
                &&& forall|i: int| 0 <= i < coms@.len() ==> (#[trigger] coms@[i]).wf()
                &&& forall|i: int| 0 <= i < blocks@.len() ==> (#[trigger] blocks@[i]).wf()
            }),
            Err(e) => dec_stream(bytes@, off as int, None, has_global_table, discard_comments)
                == Err::<(Seq<AppExtView>, Seq<Seq<Seq<u8>>>, Seq<BlockView>), GifError>(e),
        },
{
    let n = bytes.len();
    let mut application_extensions: Vec<ApplicationExtension> = Vec::new();
    let mut comment_extensions: Vec<CommentExtension> = Vec::new();
    let mut graphic_rendering_blocks: Vec<GraphicRenderingBlock> = Vec::new();
    let mut pending: Option<GraphicControlExtension> = None;
    let mut cur = off;
    loop
        invariant
            off <= cur <= bytes@.len(),
            forall|i: int|
                0 <= i < application_extensions@.len() ==> (
                #[trigger] application_extensions@[i]).wf(),
            forall|i: int|
                0 <= i < comment_extensions@.len() ==> (#[trigger] comment_extensions@[i]).wf(),
            forall|i: int|
                0 <= i < graphic_rendering_blocks@.len() ==> (
                #[trigger] graphic_rendering_blocks@[i]).wf(),
            dec_stream(bytes@, off as int, None, has_global_table, discard_comments)
                == stream_compose(
                crate::apps_view(application_extensions@),
                crate::comments_view(comment_extensions@),
                crate::blocks_view(graphic_rendering_blocks@),
                dec_stream(bytes@, cur as int, pending, has_global_table, discard_comments),
            ),
        decreases bytes@.len() - cur,
    {
        if cur >= n {
            return Err(GifError::UnexpectedEndOfData { offset: cur });
        }
        let b = byte_at(bytes, cur);
        if b == TRAILER {
            proof {
                lemma_add_empty(crate::apps_view(application_extensions@));
                lemma_add_empty(crate::comments_view(comment_extensions@));
                lemma_add_empty(crate::blocks_view(graphic_rendering_blocks@));
            }
            return Ok((application_extensions, comment_extensions, graphic_rendering_blocks));
        }
        if b == EXTENSION_INTRODUCER {
            match ExtensionBlock::decode(bytes, cur + 1, pending, discard_comments) {
                Err(e) => {
                    return Err(e);
                },
                Ok((blk, np, end)) => {
                    proof {
                        lemma_dec_ext_bounds(bytes@, cur + 1, pending, discard_comments);
                    }
                    let ghost a0 = crate::apps_view(application_extensions@);
                    let ghost c0 = crate::comments_view(comment_extensions@);
                    let ghost g0 = crate::blocks_view(graphic_rendering_blocks@);
                    let ghost r2 = dec_stream(
                        bytes@,
                        end as int,
                        np,
                        has_global_table,
                        discard_comments,
                    );
                    match blk {
                        None => {},
                        Some(ExtensionBlock::GraphicControl(_)) => {},
                        Some(ExtensionBlock::Application(a)) => {
                            proof {
                                lemma_apps_view_push(application_extensions@, a);
                                if let Ok((a2, c2, b2)) = r2 {
                                    lemma_shift_one(a0, a@, a2);
                                }
                            }
                            application_extensions.push(a);
                        },
                        Some(ExtensionBlock::Comment(c)) => {
                            proof {
                                lemma_comments_view_push(comment_extensions@, c);
                                if let Ok((a2, c2, b2)) = r2 {
                                    lemma_shift_one(c0, c@, c2);
                                }
                            }
                            comment_extensions.push(c);
                        },
                        Some(ExtensionBlock::PlainText(p)) => {
                            if has_global_table {
                                proof {
                                    lemma_blocks_view_push(
                                        graphic_rendering_blocks@,
                                        GraphicRenderingBlock::PlainText(p),
                                    );
                                    if let Ok((a2, c2, b2)) = r2 {
                                        lemma_shift_one(g0, BlockView::PlainText(p@), b2);
                                    }
                                }
                                graphic_rendering_blocks.push(GraphicRenderingBlock::PlainText(p));
                            }
                        },
                    }
                    pending = np;
                    cur = end;
                },
            }
        } else if b == IMAGE_SEPARATOR {
            match ImageDescriptor::decode(bytes, cur + 1, pending) {
                Err(e) => {
                    return Err(e);
                },
                Ok((img, end)) => {
                    proof {
                        lemma_dec_image_bounds(bytes@, cur + 1, pending);
                        let g0 = crate::blocks_view(graphic_rendering_blocks@);
                        let r2 = dec_stream(
                            bytes@,
                            end as int,
                            None,
                            has_global_table,
                            discard_comments,
                        );
                        lemma_blocks_view_push(
                            graphic_rendering_blocks@,
                            GraphicRenderingBlock::Image(img),
                        );
                        if let Ok((a2, c2, b2)) = r2 {
                            lemma_shift_one(g0, BlockView::Image(img@), b2);
                        }
                    }
                    graphic_rendering_blocks.push(GraphicRenderingBlock::Image(img));
                    pending = None;
                    cur = end;
                },
            }
        } else {
            return Err(GifError::UnknownStreamByte { byte: b, offset: cur });
        }
    }
}

/// Decodes a whole byte buffer into a document, or fails with the first
/// structural violation.  When `discard_comments` is set, comment
/// extensions are consumed but not stored.
pub fn decode(bytes: &[u8], discard_comments: bool) -> (r: Result<GifData, GifError>)
    ensures
        match r {
            Ok(d) => dec_doc(bytes@, discard_comments) == Ok::<DocView, GifError>(d@) && d.wf(),
            Err(e) => dec_doc(bytes@, discard_comments) == Err::<DocView, GifError>(e),
        },
{
    let n = bytes.len();
    if n < 1 {
        return Err(GifError::UnexpectedEndOfData { offset: 0 });
    }
    let b0 = byte_at(bytes, 0);
    if b0 != 0x47 {
        return Err(GifError::SignatureMismatch { offset: 0, expected: 0x47, actual: b0 });
    }
    if n < 2 {
        return Err(GifError::UnexpectedEndOfData { offset: 1 });
    }
    let b1 = byte_at(bytes, 1);
    if b1 != 0x49 {
        return Err(GifError::SignatureMismatch { offset: 1, expected: 0x49, actual: b1 });
    }
    if n < 3 {
        return Err(GifError::UnexpectedEndOfData { offset: 2 });
    }
    let b2 = byte_at(bytes, 2);
    if b2 != 0x46 {
        return Err(GifError::SignatureMismatch { offset: 2, expected: 0x46, actual: b2 });
    }
    proof {
        assert(dec_signature(bytes@) == Ok::<int, GifError>(3));
    }
    let (version, off1) = match Version::decode(bytes, 3) {
        Ok(t) => t,
        Err(e) => {
            return Err(e);
        },
    };
    let (lsd, off2) = match LogicalScreenDescriptor::decode(bytes, off1) {
        Ok(t) => t,
        Err(e) => {
            return Err(e);
        },
    };
    let has_global_table = match &lsd.global_color_table {
        Some(_) => true,
        None => false,
    };
    proof {
        assert(has_global_table == (lsd@.global_color_table is Some));
    }
    match decode_stream(bytes, off2, has_global_table, discard_comments) {
        Err(e) => Err(e),
        Ok((application_extensions, comment_extensions, graphic_rendering_blocks)) => {
            let d = GifData {
                version,
                logical_screen_descriptor: lsd,
                application_extensions,
                comment_extensions,
                graphic_rendering_blocks,
            };
            proof {
                assert(dec_doc(bytes@, discard_comments) matches Ok(dv) && dv =~= d@);
            }
            Ok(d)
        },
    }
}

} // verus!
