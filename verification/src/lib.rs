//! Codec for the GIF container format (versions 87a and 89a).
//!
//! The decoder turns a raw byte buffer into a typed document ([`GifData`]);
//! the encoder turns the document back into bytes, filtering out block kinds
//! that the requested target version does not support.  Pixel payloads are
//! carried as opaque, already-chunked data sub-blocks; no LZW compression or
//! decompression happens here.

use vstd::prelude::*;

pub mod decoder;
pub mod encoder;
pub mod round_trip;

verus! {

/// Byte that introduces every extension block.
pub const EXTENSION_INTRODUCER: u8 = 0x21;

/// Byte that introduces an image descriptor.
pub const IMAGE_SEPARATOR: u8 = 0x2c;

/// Sentinel byte that ends the stream.
pub const TRAILER: u8 = 0x3b;

/// Zero-length sub-block that terminates every data sub-block chain.
pub const BLOCK_TERMINATOR: u8 = 0x00;

/// Extension label of a graphic control extension.
pub const GRAPHIC_CONTROL_LABEL: u8 = 0xf9;

/// Extension label of a comment extension.
pub const COMMENT_LABEL: u8 = 0xfe;

/// Extension label of a plain text extension.
pub const PLAIN_TEXT_LABEL: u8 = 0x01;

/// Extension label of an application extension.
pub const APPLICATION_LABEL: u8 = 0xff;

/// Fixed block-size byte of a graphic control extension.
pub const GRAPHIC_CONTROL_BLOCK_SIZE: u8 = 4;

/// Fixed block-size byte of an application extension.
pub const APPLICATION_BLOCK_SIZE: u8 = 11;

/// Fixed block-size byte of a plain text extension.
pub const PLAIN_TEXT_BLOCK_SIZE: u8 = 12;

/// Why a decode failed.  Every variant carries the byte offset at which the
/// stream violated the format, and, where relevant, the expected and actual
/// byte.
#[derive(Clone, Copy, Debug, PartialEq, Eq, Structural)]
pub enum GifError {
    /// One of the three signature bytes differs from `G`/`I`/`F`.
    SignatureMismatch { offset: usize, expected: u8, actual: u8 },
    /// The version string is neither `87a` nor `89a`.
    InvalidVersion { offset: usize },
    /// An extension label byte matches none of the four known kinds.
    InvalidExtensionLabel { label: u8, offset: usize },
    /// A fixed block-size byte differs from its required constant.
    BlockSizeMismatch { offset: usize, expected: u8, actual: u8 },
    /// The graphic control extension's trailing byte is not the terminator.
    InvalidBlockTerminator { offset: usize, actual: u8 },
    /// A top-level marker byte is none of introducer, separator or trailer.
    UnknownStreamByte { byte: u8, offset: usize },
    /// A read would run past the end of the input buffer.
    UnexpectedEndOfData { offset: usize },
}

/// The two container versions this codec understands.
#[derive(Clone, Copy, Debug, PartialEq, Eq, Structural)]
pub enum Version {
    V87a,
    V89a,
}

/// A graphic control extension: a modifier that configures the next
/// rendering block's disposal, user-input and transparency behaviour.
/// It never stands alone in a decoded document.
#[derive(Clone, Copy, Debug, PartialEq, Eq, Structural)]
pub struct GraphicControlExtension {
    pub packed_fields: u8,
    pub delay_time: u16,
    pub transparent_color_index: u8,
}

/// A color palette: a flat byte buffer, logically triples of (R, G, B).
#[derive(Clone, Debug, PartialEq, Eq)]
pub struct ColorTable {
    pub pixels: Vec<u8>,
}

/// One length-prefixed chunk of a data sub-block chain.
#[derive(Clone, Debug, PartialEq, Eq)]
pub struct DataSubBlock {
    pub block_size: u8,
    pub data: Vec<u8>,
}

/// A chain of data sub-blocks, as carried by extensions and pixel payloads.
/// On the wire the chain ends with a zero-length terminator sub-block; the
/// terminator is structural and is not stored here.
#[derive(Clone, Debug, PartialEq, Eq)]
pub struct DataSubBlocks {
    pub blocks: Vec<DataSubBlock>,
}

/// An application extension: fixed-size header, 8-byte identifier, 3-byte
/// authentication code and a payload chain.
#[derive(Clone, Debug, PartialEq, Eq)]
pub struct ApplicationExtension {
    pub identifier: Vec<u8>,
    pub authentication_code: Vec<u8>,
    pub data: DataSubBlocks,
}

/// A comment extension: just a data sub-block chain.
#[derive(Clone, Debug, PartialEq, Eq)]
pub struct CommentExtension {
    pub data: DataSubBlocks,
}

/// A plain text extension, optionally carrying the graphic control modifier
/// that immediately preceded it in the stream.
#[derive(Clone, Debug, PartialEq, Eq)]
pub struct PlainTextExtension {
    pub text_grid_left_position: u16,
    pub text_grid_top_position: u16,
    pub text_grid_width: u16,
    pub text_grid_height: u16,
    pub character_cell_width: u8,
    pub character_cell_height: u8,
    pub text_foreground_color_index: u8,
    pub text_background_color_index: u8,
    pub data: DataSubBlocks,
    pub graphic_control_extension: Option<GraphicControlExtension>,
}

/// The opaque pixel payload of an image: LZW minimum code size plus an
/// already-chunked data sub-block chain.
#[derive(Clone, Debug, PartialEq, Eq)]
pub struct TableBasedImageData {
    pub lzw_minimum_code_size: u8,
    pub image_data: DataSubBlocks,
}

/// An image descriptor, optionally carrying a local palette and the graphic
/// control modifier that immediately preceded it in the stream.
#[derive(Clone, Debug, PartialEq, Eq)]
pub struct ImageDescriptor {
    pub image_left_position: u16,
    pub image_top_position: u16,
    pub image_width: u16,
    pub image_height: u16,
    pub packed_fields: u8,
    pub local_color_table: Option<ColorTable>,
    pub image_data: TableBasedImageData,
    pub graphic_control_extension: Option<GraphicControlExtension>,
}

/// A rendering block: an image or a plain text extension, in stream order.
#[derive(Clone, Debug, PartialEq, Eq)]
pub enum GraphicRenderingBlock {
    PlainText(PlainTextExtension),
    Image(ImageDescriptor),
}

/// The format's global header: dimensions, packed flag byte, background
/// index, aspect ratio byte and the optional global palette.
#[derive(Clone, Debug, PartialEq, Eq)]
pub struct LogicalScreenDescriptor {
    pub logical_screen_width: u16,
    pub logical_screen_height: u16,
    pub packed_fields: u8,
    pub background_color_index: u8,
    pub pixel_aspect_ratio: u8,
    pub global_color_table: Option<ColorTable>,
}

/// A decoded document: version, screen descriptor, and the three ordered
/// block lists.  Rendering blocks keep their original stream order, which is
/// animation-frame order.
#[derive(Clone, Debug, PartialEq, Eq)]
pub struct GifData {
    pub version: Version,
    pub logical_screen_descriptor: LogicalScreenDescriptor,
    pub application_extensions: Vec<ApplicationExtension>,
    pub comment_extensions: Vec<CommentExtension>,
    pub graphic_rendering_blocks: Vec<GraphicRenderingBlock>,
}

/// An extension block as produced by the extension dispatcher.
#[derive(Clone, Debug, PartialEq, Eq)]
pub enum ExtensionBlock {
    GraphicControl(GraphicControlExtension),
    Comment(CommentExtension),
    PlainText(PlainTextExtension),
    Application(ApplicationExtension),
}

// ----------------------------------------------------------------------------
// Mathematical views of the data model.  Byte buffers become `Seq<u8>`, data
// sub-block chains become sequences of chunk contents; all contracts and the
// codec's specification functions speak of these.
// ----------------------------------------------------------------------------

/// View of an application extension.
#[verifier::ext_equal]
pub struct AppExtView {
    pub identifier: Seq<u8>,
    pub authentication_code: Seq<u8>,
    pub data: Seq<Seq<u8>>,
}

/// View of a plain text extension.
#[verifier::ext_equal]
pub struct PlainTextView {
    pub text_grid_left_position: u16,
    pub text_grid_top_position: u16,
    pub text_grid_width: u16,
    pub text_grid_height: u16,
    pub character_cell_width: u8,
    pub character_cell_height: u8,
    pub text_foreground_color_index: u8,
    pub text_background_color_index: u8,
    pub data: Seq<Seq<u8>>,
    pub graphic_control_extension: Option<GraphicControlExtension>,
}

/// View of an image's pixel payload.
#[verifier::ext_equal]
pub struct ImageDataView {
    pub lzw_minimum_code_size: u8,
    pub image_data: Seq<Seq<u8>>,
}

/// View of an image descriptor.
#[verifier::ext_equal]
pub struct ImageView {
    pub image_left_position: u16,
    pub image_top_position: u16,
    pub image_width: u16,
    pub image_height: u16,
    pub packed_fields: u8,
    pub local_color_table: Option<Seq<u8>>,
    pub image_data: ImageDataView,
    pub graphic_control_extension: Option<GraphicControlExtension>,
}

/// View of a rendering block.
#[verifier::ext_equal]
pub enum BlockView {
    PlainText(PlainTextView),
    Image(ImageView),
}

/// View of the screen descriptor.
#[verifier::ext_equal]
pub struct ScreenView {
    pub logical_screen_width: u16,
    pub logical_screen_height: u16,
    pub packed_fields: u8,
    pub background_color_index: u8,
    pub pixel_aspect_ratio: u8,
    pub global_color_table: Option<Seq<u8>>,
}

/// View of a whole document.
#[verifier::ext_equal]
pub struct DocView {
    pub version: Version,
    pub logical_screen_descriptor: ScreenView,
    pub application_extensions: Seq<AppExtView>,
    pub comment_extensions: Seq<Seq<Seq<u8>>>,
    pub graphic_rendering_blocks: Seq<BlockView>,
}

/// View of an extension block.
#[verifier::ext_equal]
pub enum ExtBlockView {
    GraphicControl(GraphicControlExtension),
    Comment(Seq<Seq<u8>>),
    PlainText(PlainTextView),
    Application(AppExtView),
}

impl View for ColorTable {
    type V = Seq<u8>;

    open spec fn view(&self) -> Seq<u8> {
        self.pixels@
    }
}

impl View for DataSubBlock {
    type V = Seq<u8>;

    open spec fn view(&self) -> Seq<u8> {
        self.data@
    }
}

impl View for DataSubBlocks {
    type V = Seq<Seq<u8>>;

    open spec fn view(&self) -> Seq<Seq<u8>> {
        self.blocks@.map_values(|b: DataSubBlock| b@)
    }
}

impl View for ApplicationExtension {
    type V = AppExtView;

    open spec fn view(&self) -> AppExtView {
        AppExtView {
            identifier: self.identifier@,
            authentication_code: self.authentication_code@,
            data: self.data@,
        }
    }
}

impl View for CommentExtension {
    type V = Seq<Seq<u8>>;

    open spec fn view(&self) -> Seq<Seq<u8>> {
        self.data@
    }
}

impl View for PlainTextExtension {
    type V = PlainTextView;

    open spec fn view(&self) -> PlainTextView {
        PlainTextView {
            text_grid_left_position: self.text_grid_left_position,
            text_grid_top_position: self.text_grid_top_position,
            text_grid_width: self.text_grid_width,
            text_grid_height: self.text_grid_height,
            character_cell_width: self.character_cell_width,
            character_cell_height: self.character_cell_height,
            text_foreground_color_index: self.text_foreground_color_index,
            text_background_color_index: self.text_background_color_index,
            data: self.data@,
            graphic_control_extension: self.graphic_control_extension,
        }
    }
}

impl View for TableBasedImageData {
    type V = ImageDataView;

    open spec fn view(&self) -> ImageDataView {
        ImageDataView { lzw_minimum_code_size: self.lzw_minimum_code_size, image_data: self.image_data@ }
    }
}

impl View for ImageDescriptor {
    type V = ImageView;

    open spec fn view(&self) -> ImageView {
        ImageView {
            image_left_position: self.image_left_position,
            image_top_position: self.image_top_position,
            image_width: self.image_width,
            image_height: self.image_height,
            packed_fields: self.packed_fields,
            local_color_table: match self.local_color_table {
                Some(t) => Some(t@),
                None => None,
            },
            image_data: self.image_data@,
            graphic_control_extension: self.graphic_control_extension,
        }
    }
}

impl View for GraphicRenderingBlock {
    type V = BlockView;

    open spec fn view(&self) -> BlockView {
        match self {
            GraphicRenderingBlock::PlainText(p) => BlockView::PlainText(p@),
            GraphicRenderingBlock::Image(i) => BlockView::Image(i@),
        }
    }
}

impl View for LogicalScreenDescriptor {
    type V = ScreenView;

    open spec fn view(&self) -> ScreenView {
        ScreenView {
            logical_screen_width: self.logical_screen_width,
            logical_screen_height: self.logical_screen_height,
            packed_fields: self.packed_fields,
            background_color_index: self.background_color_index,
            pixel_aspect_ratio: self.pixel_aspect_ratio,
            global_color_table: match self.global_color_table {
                Some(t) => Some(t@),
                None => None,
            },
        }
    }
}

/// Views of a sequence of application extensions.
pub open spec fn apps_view(v: Seq<ApplicationExtension>) -> Seq<AppExtView> {
    v.map_values(|a: ApplicationExtension| a@)
}

/// Views of a sequence of comment extensions.
pub open spec fn comments_view(v: Seq<CommentExtension>) -> Seq<Seq<Seq<u8>>> {
    v.map_values(|c: CommentExtension| c@)
}

/// Views of a sequence of rendering blocks.
pub open spec fn blocks_view(v: Seq<GraphicRenderingBlock>) -> Seq<BlockView> {
    v.map_values(|g: GraphicRenderingBlock| g@)
}

impl View for GifData {
    type V = DocView;

    open spec fn view(&self) -> DocView {
        DocView {
            version: self.version,
            logical_screen_descriptor: self.logical_screen_descriptor@,
            application_extensions: apps_view(self.application_extensions@),
            comment_extensions: comments_view(self.comment_extensions@),
            graphic_rendering_blocks: blocks_view(self.graphic_rendering_blocks@),
        }
    }
}

impl View for ExtensionBlock {
    type V = ExtBlockView;

    open spec fn view(&self) -> ExtBlockView {
        match self {
            ExtensionBlock::GraphicControl(g) => ExtBlockView::GraphicControl(*g),
            ExtensionBlock::Comment(c) => ExtBlockView::Comment(c@),
            ExtensionBlock::PlainText(p) => ExtBlockView::PlainText(p@),
            ExtensionBlock::Application(a) => ExtBlockView::Application(a@),
        }
    }
}

// ----------------------------------------------------------------------------
// Well-formedness.
// ----------------------------------------------------------------------------

/// Byte length of a palette whose descriptor carries `packed` as its packed
/// fields: `3 * 2^(size_exponent + 1)`, where the size exponent is the low
/// three bits.
pub open spec fn color_table_len(packed: u8) -> int {
    (6u64 << ((packed & 7) as u64)) as int
}

/// The palette sizing law, as a power of two: a palette's byte length is
/// `3 * 2^(size_exponent + 1)`, where the size exponent is the low three
/// bits of the packed fields.
pub proof fn lemma_color_table_len(packed: u8)
    ensures
        color_table_len(packed) == 3 * vstd::arithmetic::power2::pow2(
            ((packed & 7) + 1) as nat,
        ),
{
    let p = packed;
    vstd::arithmetic::power2::lemma2_to64();
    assert((p & 7) < 8) by (bit_vector);
    assert(p & 7 == 0 ==> 6u64 << ((p & 7) as u64) == 6) by (bit_vector);
    assert(p & 7 == 1 ==> 6u64 << ((p & 7) as u64) == 12) by (bit_vector);
    assert(p & 7 == 2 ==> 6u64 << ((p & 7) as u64) == 24) by (bit_vector);
    assert(p & 7 == 3 ==> 6u64 << ((p & 7) as u64) == 48) by (bit_vector);
    assert(p & 7 == 4 ==> 6u64 << ((p & 7) as u64) == 96) by (bit_vector);
    assert(p & 7 == 5 ==> 6u64 << ((p & 7) as u64) == 192) by (bit_vector);
    assert(p & 7 == 6 ==> 6u64 << ((p & 7) as u64) == 384) by (bit_vector);
    assert(p & 7 == 7 ==> 6u64 << ((p & 7) as u64) == 768) by (bit_vector);
}

/// The palette sizing law for a decoded screen descriptor: when a global
/// palette is present, its byte length is `3 * 2^(size_exponent + 1)`.
pub proof fn lemma_palette_sizing(s: ScreenView)
    requires
        wf_screen(s),
    ensures
        s.global_color_table matches Some(t) ==> t.len() == 3
            * vstd::arithmetic::power2::pow2(((s.packed_fields & 7) + 1) as nat),
{
    lemma_color_table_len(s.packed_fields);
}

/// Every chunk of a data sub-block chain holds between 1 and 255 bytes: a
/// zero length would be the chain terminator, and the length must fit its
/// one-byte prefix.
pub open spec fn wf_chain(c: Seq<Seq<u8>>) -> bool {
    forall|i: int| 0 <= i < c.len() ==> 1 <= (#[trigger] c[i]).len() <= 255
}

/// The screen descriptor's palette is present iff its flag bit is set, and
/// its byte length is determined by the size exponent.
pub open spec fn wf_screen(s: ScreenView) -> bool {
    match s.global_color_table {
        Some(t) => s.packed_fields >> 7 == 1 && t.len() == color_table_len(s.packed_fields),
        None => s.packed_fields >> 7 == 0,
    }
}

/// An application extension carries an 8-byte identifier, a 3-byte
/// authentication code and a well-formed chain.
pub open spec fn wf_app(a: AppExtView) -> bool {
    a.identifier.len() == 8 && a.authentication_code.len() == 3 && wf_chain(a.data)
}

/// A plain text extension carries a well-formed chain.
pub open spec fn wf_plain_text(p: PlainTextView) -> bool {
    wf_chain(p.data)
}

/// An image's local palette is present iff its flag bit is set and has the
/// length its size exponent dictates; the pixel payload chain is well-formed.
pub open spec fn wf_image(i: ImageView) -> bool {
    &&& match i.local_color_table {
        Some(t) => i.packed_fields >> 7 == 1 && t.len() == color_table_len(i.packed_fields),
        None => i.packed_fields >> 7 == 0,
    }
    &&& wf_chain(i.image_data.image_data)
}

/// Well-formedness of a rendering block.
pub open spec fn wf_block(b: BlockView) -> bool {
    match b {
        BlockView::PlainText(p) => wf_plain_text(p),
        BlockView::Image(i) => wf_image(i),
    }
}

/// Well-formedness of a whole document view: every component satisfies its
/// own invariant.
pub open spec fn wf_doc(d: DocView) -> bool {
    &&& wf_screen(d.logical_screen_descriptor)
    &&& forall|i: int|
        0 <= i < d.application_extensions.len() ==> wf_app(
            #[trigger] d.application_extensions[i],
        )
    &&& forall|i: int|
        0 <= i < d.comment_extensions.len() ==> wf_chain(#[trigger] d.comment_extensions[i])
    &&& forall|i: int|
        0 <= i < d.graphic_rendering_blocks.len() ==> wf_block(
            #[trigger] d.graphic_rendering_blocks[i],
        )
}

impl DataSubBlock {
    /// The stored length byte equals the chunk's actual length, which is
    /// non-zero (a zero length byte is the chain terminator).
    pub open spec fn wf(&self) -> bool {
        self.block_size as int == self.data@.len() && self.block_size != 0
    }
}

impl DataSubBlocks {
    /// Every chunk's stored length byte is accurate and non-zero.
    pub open spec fn wf(&self) -> bool {
        forall|i: int| 0 <= i < self.blocks@.len() ==> (#[trigger] self.blocks@[i]).wf()
    }

    /// A well-formed chain structure has a well-formed view.
    pub proof fn lemma_wf_view(&self)
        requires
            self.wf(),
        ensures
            wf_chain(self@),
    {
        assert forall|i: int| 0 <= i < self@.len() implies 1 <= (#[trigger] self@[i]).len()
            <= 255 by {
            assert(self.blocks@[i].wf());
            assert(self@[i] == self.blocks@[i].data@);
        }
    }
}

impl ApplicationExtension {
    pub open spec fn wf(&self) -> bool {
        wf_app(self@) && self.data.wf()
    }
}

impl CommentExtension {
    pub open spec fn wf(&self) -> bool {
        wf_chain(self@) && self.data.wf()
    }
}

impl PlainTextExtension {
    pub open spec fn wf(&self) -> bool {
        wf_plain_text(self@) && self.data.wf()
    }
}

impl TableBasedImageData {
    pub open spec fn wf(&self) -> bool {
        wf_chain(self.image_data@) && self.image_data.wf()
    }
}

impl ImageDescriptor {
    pub open spec fn wf(&self) -> bool {
        wf_image(self@) && self.image_data.wf()
    }
}

impl GraphicRenderingBlock {
    pub open spec fn wf(&self) -> bool {
        match self {
            GraphicRenderingBlock::PlainText(p) => p.wf(),
            GraphicRenderingBlock::Image(i) => i.wf(),
        }
    }
}

impl LogicalScreenDescriptor {
    pub open spec fn wf(&self) -> bool {
        wf_screen(self@)
    }
}

impl ExtensionBlock {
    pub open spec fn wf(&self) -> bool {
        match self {
            ExtensionBlock::GraphicControl(_) => true,
            ExtensionBlock::Comment(c) => c.wf(),
            ExtensionBlock::PlainText(p) => p.wf(),
            ExtensionBlock::Application(a) => a.wf(),
        }
    }
}

impl GifData {
    pub open spec fn wf(&self) -> bool {
        &&& self.logical_screen_descriptor.wf()
        &&& forall|i: int|
            0 <= i < self.application_extensions@.len() ==> (
            #[trigger] self.application_extensions@[i]).wf()
        &&& forall|i: int|
            0 <= i < self.comment_extensions@.len() ==> (
            #[trigger] self.comment_extensions@[i]).wf()
        &&& forall|i: int|
            0 <= i < self.graphic_rendering_blocks@.len() ==> (
            #[trigger] self.graphic_rendering_blocks@[i]).wf()
    }

    /// A well-formed document structure has a well-formed view.
    pub proof fn lemma_wf_view(&self)
        requires
            self.wf(),
        ensures
            wf_doc(self@),
    {
        assert forall|i: int| 0 <= i < self@.application_extensions.len() implies wf_app(
            #[trigger] self@.application_extensions[i],
        ) by {
            assert(self.application_extensions@[i].wf());
            assert(self@.application_extensions[i] == self.application_extensions@[i]@);
        }
        assert forall|i: int| 0 <= i < self@.comment_extensions.len() implies wf_chain(
            #[trigger] self@.comment_extensions[i],
        ) by {
            assert(self.comment_extensions@[i].wf());
            assert(self@.comment_extensions[i] == self.comment_extensions@[i]@);
        }
        assert forall|i: int| 0 <= i < self@.graphic_rendering_blocks.len() implies wf_block(
            #[trigger] self@.graphic_rendering_blocks[i],
        ) by {
            assert(self.graphic_rendering_blocks@[i].wf());
            assert(self@.graphic_rendering_blocks[i] == self.graphic_rendering_blocks@[i]@);
            match self.graphic_rendering_blocks@[i] {
                GraphicRenderingBlock::PlainText(p) => {}
                GraphicRenderingBlock::Image(im) => {}
            }
        }
    }
}

// ----------------------------------------------------------------------------
// Runtime checks of the well-formedness invariants, for callers that build
// documents by hand rather than through the decoder.
// ----------------------------------------------------------------------------

impl DataSubBlocks {
    /// Checks that every chunk's stored length byte is accurate and
    /// non-zero.
    pub fn is_well_formed(&self) -> (r: bool)
        ensures
            r == self.wf(),
    {
        let n = self.blocks.len();
        let mut i: usize = 0;
        while i < n
            invariant
                i <= n,
                n == self.blocks@.len(),
                forall|j: int| 0 <= j < i ==> (#[trigger] self.blocks@[j]).wf(),
            decreases n - i,
        {
            let b = &self.blocks[i];
            if b.block_size == 0 || b.block_size as usize != b.data.len() {
                proof {
                    assert(!self.blocks@[i as int].wf());
                }
                return false;
            }
            i = i + 1;
        }
        true
    }
}

impl LogicalScreenDescriptor {
    /// Checks the palette-presence and palette-length invariant.
    pub fn is_well_formed(&self) -> (r: bool)
        ensures
            r == self.wf(),
    {
        let p = self.packed_fields;
        match &self.global_color_table {
            Some(t) => {
                proof {
                    assert(((p & 7) as u64) < 64) by (bit_vector);
                    assert(6u64 << ((p & 7) as u64) <= 768) by (bit_vector);
                }
                let size = (6u64 << ((p & 7) as u64)) as usize;
                p >> 7 == 1 && t.pixels.len() == size
            },
            None => p >> 7 == 0,
        }
    }
}

impl ApplicationExtension {
    /// Checks the identifier and authentication-code lengths and the
    /// payload chain.
    pub fn is_well_formed(&self) -> (r: bool)
        ensures
            r == self.wf(),
    {
        let r = self.identifier.len() == 8 && self.authentication_code.len() == 3
            && self.data.is_well_formed();
        proof {
            if self.data.wf() {
                self.data.lemma_wf_view();
            }
        }
        r
    }
}

impl CommentExtension {
    /// Checks the payload chain.
    pub fn is_well_formed(&self) -> (r: bool)
        ensures
            r == self.wf(),
    {
        let r = self.data.is_well_formed();
        proof {
            if self.data.wf() {
                self.data.lemma_wf_view();
            }
        }
        r
    }
}

impl PlainTextExtension {
    /// Checks the text chain.
    pub fn is_well_formed(&self) -> (r: bool)
        ensures
            r == self.wf(),
    {
        let r = self.data.is_well_formed();
        proof {
            if self.data.wf() {
                self.data.lemma_wf_view();
            }
        }
        r
    }
}

impl TableBasedImageData {
    /// Checks the pixel payload chain.
    pub fn is_well_formed(&self) -> (r: bool)
        ensures
            r == self.wf(),
    {
        let r = self.image_data.is_well_formed();
        proof {
            if self.image_data.wf() {
                self.image_data.lemma_wf_view();
            }
        }
        r
    }
}

impl ImageDescriptor {
    /// Checks the local-palette invariant and the pixel payload chain.
    pub fn is_well_formed(&self) -> (r: bool)
        ensures
            r == self.wf(),
    {
        let p = self.packed_fields;
        let table_ok = match &self.local_color_table {
            Some(t) => {
                proof {
                    assert(((p & 7) as u64) < 64) by (bit_vector);
                    assert(6u64 << ((p & 7) as u64) <= 768) by (bit_vector);
                }
                let size = (6u64 << ((p & 7) as u64)) as usize;
                p >> 7 == 1 && t.pixels.len() == size
            },
            None => p >> 7 == 0,
        };
        table_ok && self.image_data.is_well_formed()
    }
}

impl GraphicRenderingBlock {
    /// Checks the invariant of whichever block kind this is.
    pub fn is_well_formed(&self) -> (r: bool)
        ensures
            r == self.wf(),
    {
        match self {
            GraphicRenderingBlock::PlainText(p) => p.is_well_formed(),
            GraphicRenderingBlock::Image(i) => i.is_well_formed(),
        }
    }
}

impl GifData {
    /// Checks every component invariant of the document, as the encoder's
    /// contract requires.  Documents built by [`crate::decoder::decode`]
    /// always pass.
    pub fn is_well_formed(&self) -> (r: bool)
        ensures
            r == self.wf(),
    {
        if !self.logical_screen_descriptor.is_well_formed() {
            return false;
        }
        let n = self.application_extensions.len();
        let mut i: usize = 0;
        while i < n
            invariant
                i <= n,
                n == self.application_extensions@.len(),
                forall|j: int|
                    0 <= j < i ==> (#[trigger] self.application_extensions@[j]).wf(),
            decreases n - i,
        {
            if !self.application_extensions[i].is_well_formed() {
                proof {
                    assert(!self.application_extensions@[i as int].wf());
                }
                return false;
            }
            i = i + 1;
        }
        let n = self.comment_extensions.len();
        let mut i: usize = 0;
        while i < n
            invariant
                i <= n,
                n == self.comment_extensions@.len(),
                forall|j: int| 0 <= j < i ==> (#[trigger] self.comment_extensions@[j]).wf(),
            decreases n - i,
        {
            if !self.comment_extensions[i].is_well_formed() {
                proof {
                    assert(!self.comment_extensions@[i as int].wf());
                }
                return false;
            }
            i = i + 1;
        }
        let n = self.graphic_rendering_blocks.len();
        let mut i: usize = 0;
        while i < n
            invariant
                i <= n,
                n == self.graphic_rendering_blocks@.len(),
                forall|j: int|
                    0 <= j < i ==> (#[trigger] self.graphic_rendering_blocks@[j]).wf(),
            decreases n - i,
        {
            if !self.graphic_rendering_blocks[i].is_well_formed() {
                proof {
                    assert(!self.graphic_rendering_blocks@[i as int].wf());
                }
                return false;
            }
            i = i + 1;
        }
        true
    }
}

// ----------------------------------------------------------------------------
// Bit-field accessors over packed-fields bytes.
// ----------------------------------------------------------------------------

impl LogicalScreenDescriptor {
    /// Bit 7: whether a global color table follows the descriptor.
    pub fn global_color_table_flag(&self) -> (r: u8)
        ensures
            r == self@.packed_fields >> 7,
    {
        self.packed_fields >> 7
    }

    /// Bits 4-6: color resolution.
    pub fn color_resolution(&self) -> (r: u8)
        ensures
            r == (self@.packed_fields << 1) >> 5,
    {
        (self.packed_fields << 1) >> 5
    }

    /// Bit 3: whether the global color table is sorted.
    pub fn sort_flag(&self) -> (r: u8)
        ensures
            r == (self@.packed_fields << 4) >> 7,
    {
        (self.packed_fields << 4) >> 7
    }

    /// Bits 0-2: size exponent of the global color table.
    pub fn global_color_table_size(&self) -> (r: u8)
        ensures
            r == self@.packed_fields & 7,
    {
        let p = self.packed_fields;
        proof {
            assert(((p << 5) >> 5) == p & 7) by (bit_vector);
        }
        (p << 5) >> 5
    }
}

impl GraphicControlExtension {
    /// Bits 2-4: disposal method.
    pub fn disposal_method(&self) -> (r: u8)
        ensures
            r == (self.packed_fields << 3) >> 5,
    {
        (self.packed_fields << 3) >> 5
    }

    /// Bit 1: whether user input is expected.
    pub fn user_input_flag(&self) -> (r: u8)
        ensures
            r == (self.packed_fields << 6) >> 7,
    {
        (self.packed_fields << 6) >> 7
    }

    /// Bit 0: whether `transparent_color_index` is meaningful.
    pub fn transparent_color_flag(&self) -> (r: u8)
        ensures
            r == (self.packed_fields << 7) >> 7,
    {
        (self.packed_fields << 7) >> 7
    }
}

impl ImageDescriptor {
    /// Bit 7: whether a local color table follows the descriptor.
    pub fn local_color_table_flag(&self) -> (r: u8)
        ensures
            r == self@.packed_fields >> 7,
    {
        self.packed_fields >> 7
    }

    /// Bit 6: whether the image is interlaced.
    pub fn interlace_flag(&self) -> (r: u8)
        ensures
            r == (self@.packed_fields << 1) >> 7,
    {
        (self.packed_fields << 1) >> 7
    }

    /// Bit 5: whether the local color table is sorted.
    pub fn sort_flag(&self) -> (r: u8)
        ensures
            r == (self@.packed_fields << 2) >> 7,
    {
        (self.packed_fields << 2) >> 7
    }

    /// Bits 0-2: size exponent of the local color table.
    pub fn local_color_table_size(&self) -> (r: u8)
        ensures
            r == self@.packed_fields & 7,
    {
        let p = self.packed_fields;
        proof {
            assert(((p << 5) >> 5) == p & 7) by (bit_vector);
        }
        (p << 5) >> 5
    }
}

impl ColorTable {
    /// The three palette bytes of pixel index `idx`: bytes `3*idx` up to but
    /// not including `3*idx + 3`.
    pub fn get_pixel(&self, idx: usize) -> (r: &[u8])
        requires
            idx * 3 + 3 <= self@.len(),
        ensures
            r@ == self@.subrange(idx * 3, idx * 3 + 3),
    {
        let n = self.pixels.len();
        assert(idx * 3 + 3 <= n);
        vstd::slice::slice_subrange(self.pixels.as_slice(), idx * 3, idx * 3 + 3)
    }
}

} // verus!
