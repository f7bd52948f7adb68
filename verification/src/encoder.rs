//! The encoder: serialises a [`GifData`] document back into bytes for a
//! caller-chosen target version.
//!
//! Every executable encoder is proved to produce exactly the bytes of its
//! specification function (`enc_*`).  The document's own `version` field
//! plays no role in encoding: only the target version decides which block
//! kinds are emitted.

use vstd::prelude::*;

use crate::{
    ApplicationExtension, AppExtView, BlockView, CommentExtension, DataSubBlock, DataSubBlocks,
    DocView, GifData, GraphicControlExtension, GraphicRenderingBlock, ImageDataView,
    ImageDescriptor, ImageView, LogicalScreenDescriptor, PlainTextExtension, PlainTextView,
    ScreenView, TableBasedImageData, Version, APPLICATION_BLOCK_SIZE, APPLICATION_LABEL,
    BLOCK_TERMINATOR, COMMENT_LABEL, EXTENSION_INTRODUCER, GRAPHIC_CONTROL_BLOCK_SIZE,
    GRAPHIC_CONTROL_LABEL, IMAGE_SEPARATOR, PLAIN_TEXT_BLOCK_SIZE, PLAIN_TEXT_LABEL, TRAILER,
};

verus! {

// ----------------------------------------------------------------------------
// Specification of the byte stream each component serialises to.
// ----------------------------------------------------------------------------

/// Big-endian bytes of a 16-bit field.
pub open spec fn enc_u16(x: u16) -> Seq<u8> {
    seq![(x >> 8) as u8, x as u8]
}

/// The three version-string bytes.
pub open spec fn enc_version(v: Version) -> Seq<u8> {
    match v {
        Version::V87a => seq![0x38u8, 0x37u8, 0x61u8],
        Version::V89a => seq![0x38u8, 0x39u8, 0x61u8],
    }
}

/// The screen descriptor: two 16-bit dimensions, packed fields, background
/// index, aspect ratio byte, then the global palette if there is one.
pub open spec fn enc_screen(s: ScreenView) -> Seq<u8> {
    enc_u16(s.logical_screen_width) + enc_u16(s.logical_screen_height) + seq![
        s.packed_fields,
        s.background_color_index,
        s.pixel_aspect_ratio,
    ] + match s.global_color_table {
        Some(t) => t,
        None => Seq::empty(),
    }
}

/// One chunk of a data sub-block chain: its length byte, then its bytes.
pub open spec fn enc_chunk(c: Seq<u8>) -> Seq<u8> {
    seq![c.len() as u8] + c
}

/// Concatenation of `f` applied to every element of `s`, in order.
pub open spec fn concat_bytes<T>(s: Seq<T>, f: spec_fn(T) -> Seq<u8>) -> Seq<u8>
    decreases s.len(),
{
    if s.len() == 0 {
        Seq::empty()
    } else {
        f(s[0]) + concat_bytes(s.drop_first(), f)
    }
}

/// A data sub-block chain: every chunk in order, then the terminator byte.
pub open spec fn enc_chain(c: Seq<Seq<u8>>) -> Seq<u8> {
    concat_bytes(c, |x: Seq<u8>| enc_chunk(x)) + seq![BLOCK_TERMINATOR]
}

/// A graphic control extension: introducer, label, fixed block size, packed
/// fields, delay time, transparent color index, terminator.
pub open spec fn enc_gce(g: GraphicControlExtension) -> Seq<u8> {
    seq![EXTENSION_INTRODUCER, GRAPHIC_CONTROL_LABEL, GRAPHIC_CONTROL_BLOCK_SIZE, g.packed_fields]
        + enc_u16(g.delay_time) + seq![g.transparent_color_index, BLOCK_TERMINATOR]
}

/// An optional graphic control extension: its bytes, or nothing.
pub open spec fn enc_opt_gce(g: Option<GraphicControlExtension>) -> Seq<u8> {
    match g {
        Some(g) => enc_gce(g),
        None => Seq::empty(),
    }
}

/// An application extension: introducer, label, fixed block size, 8-byte
/// identifier, 3-byte authentication code, payload chain.
pub open spec fn enc_app(a: AppExtView) -> Seq<u8> {
    seq![EXTENSION_INTRODUCER, APPLICATION_LABEL, APPLICATION_BLOCK_SIZE] + a.identifier
        + a.authentication_code + enc_chain(a.data)
}

/// A comment extension: introducer, label, payload chain.
pub open spec fn enc_comment(c: Seq<Seq<u8>>) -> Seq<u8> {
    seq![EXTENSION_INTRODUCER, COMMENT_LABEL] + enc_chain(c)
}

/// The plain text block itself: introducer, label, fixed block size, grid
/// geometry, cell sizes, color indices, text chain.
pub open spec fn enc_plain_text_body(p: PlainTextView) -> Seq<u8> {
    seq![EXTENSION_INTRODUCER, PLAIN_TEXT_LABEL, PLAIN_TEXT_BLOCK_SIZE] + enc_u16(
        p.text_grid_left_position,
    ) + enc_u16(p.text_grid_top_position) + enc_u16(p.text_grid_width) + enc_u16(
        p.text_grid_height,
    ) + seq![
        p.character_cell_width,
        p.character_cell_height,
        p.text_foreground_color_index,
        p.text_background_color_index,
    ] + enc_chain(p.data)
}

/// A plain text extension.  An attached graphic control modifier is emitted
/// first, as its own extension block, so that decoding sees it before the
/// plain text block it modifies.
pub open spec fn enc_plain_text(p: PlainTextView) -> Seq<u8> {
    enc_opt_gce(p.graphic_control_extension) + enc_plain_text_body(p)
}

/// An image's pixel payload: LZW minimum code size, then the data chain.
pub open spec fn enc_image_data(t: ImageDataView) -> Seq<u8> {
    seq![t.lzw_minimum_code_size] + enc_chain(t.image_data)
}

/// The image block itself: separator, geometry, packed fields, optional
/// local palette, pixel payload.
pub open spec fn enc_image_body(i: ImageView) -> Seq<u8> {
    seq![IMAGE_SEPARATOR] + enc_u16(i.image_left_position) + enc_u16(i.image_top_position)
        + enc_u16(i.image_width) + enc_u16(i.image_height) + seq![i.packed_fields] + match i
        .local_color_table {
        Some(t) => t,
        None => Seq::empty(),
    } + enc_image_data(i.image_data)
}

/// An image descriptor.  An attached graphic control modifier is emitted
/// first, but only for a target version that supports it.
pub open spec fn enc_image(i: ImageView, v: Version) -> Seq<u8> {
    (if v is V87a {
        Seq::empty()
    } else {
        enc_opt_gce(i.graphic_control_extension)
    }) + enc_image_body(i)
}

/// A rendering block, ungated: the stream-level filtering of plain text
/// blocks for the earlier version happens in [`enc_blocks`].
pub open spec fn enc_block(b: BlockView, v: Version) -> Seq<u8> {
    match b {
        BlockView::PlainText(p) => enc_plain_text(p),
        BlockView::Image(i) => enc_image(i, v),
    }
}

/// A rendering block as it appears in the output stream: plain text blocks
/// are dropped entirely for the earlier version.
pub open spec fn enc_block_gated(b: BlockView, v: Version) -> Seq<u8> {
    match b {
        BlockView::PlainText(p) => if v is V87a {
            Seq::empty()
        } else {
            enc_plain_text(p)
        },
        BlockView::Image(i) => enc_image(i, v),
    }
}

/// All application extensions, or nothing for the earlier version.
pub open spec fn enc_apps(s: Seq<AppExtView>, v: Version) -> Seq<u8> {
    if v is V87a {
        Seq::empty()
    } else {
        concat_bytes(s, |a: AppExtView| enc_app(a))
    }
}

/// All comment extensions, or nothing when they are discarded or the target
/// is the earlier version.
pub open spec fn enc_comments(s: Seq<Seq<Seq<u8>>>, v: Version, discard_comments: bool) -> Seq<
    u8,
> {
    if v is V87a || discard_comments {
        Seq::empty()
    } else {
        concat_bytes(s, |c: Seq<Seq<u8>>| enc_comment(c))
    }
}

/// All rendering blocks, gated for the target version.
pub open spec fn enc_blocks(s: Seq<BlockView>, v: Version) -> Seq<u8> {
    concat_bytes(s, |b: BlockView| enc_block_gated(b, v))
}

/// The whole output stream: signature, version string, screen descriptor,
/// the three filtered block lists, trailer.
pub open spec fn enc_doc(d: DocView, v: Version, discard_comments: bool) -> Seq<u8> {
    seq![0x47u8, 0x49u8, 0x46u8] + enc_version(v) + enc_screen(d.logical_screen_descriptor)
        + enc_apps(d.application_extensions, v) + enc_comments(
        d.comment_extensions,
        v,
        discard_comments,
    ) + enc_blocks(d.graphic_rendering_blocks, v) + seq![TRAILER]
}

/// Peeling one element off the front of a concatenation.
pub proof fn lemma_concat_bytes_take<T>(s: Seq<T>, f: spec_fn(T) -> Seq<u8>, i: int)
    requires
        0 <= i < s.len(),
    ensures
        concat_bytes(s.take(i + 1), f) == concat_bytes(s.take(i), f) + f(s[i]),
    decreases i,
{
    if i == 0 {
        assert(concat_bytes(Seq::<T>::empty(), f) == Seq::<u8>::empty());
        assert(s.take(1).drop_first() =~= Seq::<T>::empty());
        assert(s.take(0) =~= Seq::<T>::empty());
        assert(s.take(1)[0] == s[0]);
        assert(concat_bytes(s.take(1), f) == f(s[0]) + concat_bytes(Seq::<T>::empty(), f));
        assert(concat_bytes(s.take(1), f) =~= f(s[0]));
        assert(concat_bytes(s.take(0), f) + f(s[0]) =~= f(s[0]));
    } else {
        let t = s.drop_first();
        lemma_concat_bytes_take(t, f, i - 1);
        assert(s.take(i + 1).drop_first() =~= t.take(i));
        assert(s.take(i).drop_first() =~= t.take(i - 1));
        assert(s.take(i + 1)[0] == s[0]);
        assert(s.take(i)[0] == s[0]);
        assert(concat_bytes(s.take(i + 1), f) == f(s[0]) + concat_bytes(t.take(i), f));
        assert(concat_bytes(s.take(i), f) == f(s[0]) + concat_bytes(t.take(i - 1), f));
        assert(f(s[0]) + (concat_bytes(t.take(i - 1), f) + f(t[i - 1])) =~= (f(s[0])
            + concat_bytes(t.take(i - 1), f)) + f(t[i - 1]));
        assert(t[i - 1] == s[i]);
    }
}

/// The rendering blocks with every plain text block removed.
pub open spec fn keep_images(s: Seq<BlockView>) -> Seq<BlockView>
    decreases s.len(),
{
    if s.len() == 0 {
        Seq::empty()
    } else if s[0] is Image {
        seq![s[0]] + keep_images(s.drop_first())
    } else {
        keep_images(s.drop_first())
    }
}

/// What remains after dropping plain text blocks is images only.
pub proof fn lemma_keep_images_only_images(s: Seq<BlockView>)
    ensures
        forall|i: int| 0 <= i < keep_images(s).len() ==> (#[trigger] keep_images(s)[i]) is Image,
    decreases s.len(),
{
    if s.len() > 0 {
        lemma_keep_images_only_images(s.drop_first());
        if s[0] is Image {
            assert forall|i: int| 0 <= i < keep_images(s).len() implies (
            #[trigger] keep_images(s)[i]) is Image by {
                if i == 0 {
                    assert(keep_images(s)[0] == s[0]);
                } else {
                    assert(keep_images(s)[i] == keep_images(s.drop_first())[i - 1]);
                }
            }
        }
    }
}

/// For the earlier version, the rendering-block bytes are those of the
/// images alone: plain text blocks contribute nothing.
pub proof fn lemma_blocks_earlier_version(s: Seq<BlockView>)
    ensures
        enc_blocks(s, Version::V87a) == enc_blocks(keep_images(s), Version::V87a),
    decreases s.len(),
{
    let f = |b: BlockView| enc_block_gated(b, Version::V87a);
    if s.len() == 0 {
        assert(keep_images(s) =~= Seq::<BlockView>::empty());
    } else {
        let rest = s.drop_first();
        lemma_blocks_earlier_version(rest);
        assert(concat_bytes(s, f) == f(s[0]) + concat_bytes(rest, f));
        if s[0] is Image {
            let k = keep_images(s);
            assert(k == seq![s[0]] + keep_images(rest));
            assert(k.len() > 0 && k[0] == s[0]);
            assert(k.drop_first() =~= keep_images(rest));
            assert(concat_bytes(k, f) == f(k[0]) + concat_bytes(k.drop_first(), f));
        } else {
            assert(f(s[0]) == Seq::<u8>::empty());
            assert(Seq::<u8>::empty() + concat_bytes(rest, f) =~= concat_bytes(rest, f));
        }
    }
}

/// Version filtering: for the earlier target version the output stream
/// holds no application extension, no comment extension and no plain text
/// block — only the header, the image blocks (without graphic control
/// modifiers) and the trailer.
pub proof fn lemma_earlier_version_filtering(d: DocView, discard_comments: bool)
    ensures
        enc_doc(d, Version::V87a, discard_comments) == seq![0x47u8, 0x49u8, 0x46u8]
            + enc_version(Version::V87a) + enc_screen(d.logical_screen_descriptor) + enc_blocks(
            keep_images(d.graphic_rendering_blocks),
            Version::V87a,
        ) + seq![TRAILER],
        forall|i: int|
            0 <= i < keep_images(d.graphic_rendering_blocks).len() ==> (#[trigger] keep_images(
                d.graphic_rendering_blocks,
            )[i]) is Image,
{
    lemma_blocks_earlier_version(d.graphic_rendering_blocks);
    lemma_keep_images_only_images(d.graphic_rendering_blocks);
    assert(enc_apps(d.application_extensions, Version::V87a) == Seq::<u8>::empty());
    assert(enc_comments(d.comment_extensions, Version::V87a, discard_comments) == Seq::<
        u8,
    >::empty());
    assert(enc_doc(d, Version::V87a, discard_comments) =~= seq![0x47u8, 0x49u8, 0x46u8]
        + enc_version(Version::V87a) + enc_screen(d.logical_screen_descriptor) + enc_blocks(
        keep_images(d.graphic_rendering_blocks),
        Version::V87a,
    ) + seq![TRAILER]);
}

// ----------------------------------------------------------------------------
// Executable encoders.
// ----------------------------------------------------------------------------

/// Appends every byte of `src` to `data`.
fn extend_bytes(data: &mut Vec<u8>, src: &[u8])
    ensures
        final(data)@ == old(data)@ + src@,
{
    let n = src.len();
    let mut i: usize = 0;
    while i < n
        invariant
            i <= n,
            n == src@.len(),
            data@ == old(data)@ + src@.take(i as int),
        decreases n - i,
    {
        let b = *vstd::slice::slice_index_get(src, i);
        data.push(b);
        proof {
            assert(old(data)@ + src@.take(i + 1) =~= (old(data)@ + src@.take(i as int)).push(
                src@[i as int],
            ));
        }
        i = i + 1;
    }
    proof {
        assert(src@.take(n as int) =~= src@);
    }
}

/// Appends a 16-bit field in big-endian order.
fn push_u16(data: &mut Vec<u8>, x: u16)
    ensures
        final(data)@ == old(data)@ + enc_u16(x),
{
    data.push((x >> 8) as u8);
    data.push(x as u8);
    proof {
        assert(old(data)@ + enc_u16(x) =~= old(data)@.push((x >> 8) as u8).push(x as u8));
    }
}

impl Version {
    /// The three version-string bytes.
    pub fn encode(&self) -> (r: Vec<u8>)
        ensures
            r@ == enc_version(*self),
    {
        let mut data: Vec<u8> = Vec::new();
        match self {
            Version::V87a => {
                data.push(0x38);
                data.push(0x37);
                data.push(0x61);
            },
            Version::V89a => {
                data.push(0x38);
                data.push(0x39);
                data.push(0x61);
            },
        }
        proof {
            assert(data@ =~= enc_version(*self));
        }
        data
    }
}

impl LogicalScreenDescriptor {
    /// Serialises the screen descriptor, palette included.
    pub fn encode(&self) -> (r: Vec<u8>)
        ensures
            r@ == enc_screen(self@),
    {
        let mut data: Vec<u8> = Vec::new();
        push_u16(&mut data, self.logical_screen_width);
        push_u16(&mut data, self.logical_screen_height);
        data.push(self.packed_fields);
        data.push(self.background_color_index);
        data.push(self.pixel_aspect_ratio);
        if let Some(table) = &self.global_color_table {
            extend_bytes(&mut data, table.pixels.as_slice());
        }
        proof {
            assert(data@ =~= enc_screen(self@));
        }
        data
    }
}

impl DataSubBlock {
    /// One chunk: its length byte, then its bytes.
    pub fn encode(&self) -> (r: Vec<u8>)
        requires
            self.wf(),
        ensures
            r@ == enc_chunk(self@),
    {
        let mut data: Vec<u8> = Vec::new();
        data.push(self.block_size);
        extend_bytes(&mut data, self.data.as_slice());
        proof {
            assert(data@ =~= enc_chunk(self@));
        }
        data
    }
}

impl DataSubBlocks {
    /// The whole chain: every chunk in order, then the terminator byte.
    #[verifier::loop_isolation(false)]
    pub fn encode(&self) -> (r: Vec<u8>)
        requires
            self.wf(),
        ensures
            r@ == enc_chain(self@),
    {
        let f = Ghost(|x: Seq<u8>| enc_chunk(x));
        let mut data: Vec<u8> = Vec::new();
        let n = self.blocks.len();
        let mut i: usize = 0;
        while i < n
            invariant
                i <= n,
                n == self.blocks@.len(),
                self.wf(),
                data@ == concat_bytes(self@.take(i as int), f@),
            decreases n - i,
        {
            let chunk = self.blocks[i].encode();
            extend_bytes(&mut data, chunk.as_slice());
            proof {
                lemma_concat_bytes_take(self@, f@, i as int);
                assert(self@[i as int] == self.blocks@[i as int]@);
                assert(f@(self@[i as int]) == enc_chunk(self@[i as int]));
                assert(data@ =~= concat_bytes(self@.take(i as int + 1), f@));
            }
            i = i + 1;
        }
        data.push(BLOCK_TERMINATOR);
        proof {
            assert(self@.take(n as int) =~= self@);
            assert(data@ =~= enc_chain(self@));
        }
        data
    }
}

impl GraphicControlExtension {
    /// Serialises the graphic control extension as a full extension block.
    pub fn encode(&self) -> (r: Vec<u8>)
        ensures
            r@ == enc_gce(*self),
    {
        let mut data: Vec<u8> = Vec::new();
        data.push(EXTENSION_INTRODUCER);
        data.push(GRAPHIC_CONTROL_LABEL);
        data.push(GRAPHIC_CONTROL_BLOCK_SIZE);
        data.push(self.packed_fields);
        push_u16(&mut data, self.delay_time);
        data.push(self.transparent_color_index);
        data.push(BLOCK_TERMINATOR);
        proof {
            assert(data@ =~= enc_gce(*self));
        }
        data
    }
}

impl ApplicationExtension {
    /// Serialises the application extension as a full extension block.
    pub fn encode(&self) -> (r: Vec<u8>)
        requires
            self.data.wf(),
        ensures
            r@ == enc_app(self@),
    {
        let mut data: Vec<u8> = Vec::new();
        data.push(EXTENSION_INTRODUCER);
        data.push(APPLICATION_LABEL);
        data.push(APPLICATION_BLOCK_SIZE);
        extend_bytes(&mut data, self.identifier.as_slice());
        extend_bytes(&mut data, self.authentication_code.as_slice());
        let chain = self.data.encode();
        extend_bytes(&mut data, chain.as_slice());
        proof {
            assert(data@ =~= enc_app(self@));
        }
        data
    }
}

impl CommentExtension {
    /// Serialises the comment extension as a full extension block.
    pub fn encode(&self) -> (r: Vec<u8>)
        requires
            self.data.wf(),
        ensures
            r@ == enc_comment(self@),
    {
        let mut data: Vec<u8> = Vec::new();
        data.push(EXTENSION_INTRODUCER);
        data.push(COMMENT_LABEL);
        let chain = self.data.encode();
        extend_bytes(&mut data, chain.as_slice());
        proof {
            assert(data@ =~= enc_comment(self@));
        }
        data
    }
}

impl PlainTextExtension {
    /// Serialises the plain text extension, an attached graphic control
    /// modifier first.
    pub fn encode(&self) -> (r: Vec<u8>)
        requires
            self.data.wf(),
        ensures
            r@ == enc_plain_text(self@),
    {
        let mut data: Vec<u8> = Vec::new();
        if let Some(gce) = &self.graphic_control_extension {
            let gce_bytes = gce.encode();
            extend_bytes(&mut data, gce_bytes.as_slice());
        }
        data.push(EXTENSION_INTRODUCER);
        data.push(PLAIN_TEXT_LABEL);
        data.push(PLAIN_TEXT_BLOCK_SIZE);
        push_u16(&mut data, self.text_grid_left_position);
        push_u16(&mut data, self.text_grid_top_position);
        push_u16(&mut data, self.text_grid_width);
        push_u16(&mut data, self.text_grid_height);
        data.push(self.character_cell_width);
        data.push(self.character_cell_height);
        data.push(self.text_foreground_color_index);
        data.push(self.text_background_color_index);
        let chain = self.data.encode();
        extend_bytes(&mut data, chain.as_slice());
        proof {
            assert(data@ =~= enc_plain_text(self@));
        }
        data
    }
}

impl TableBasedImageData {
    /// Serialises the pixel payload.
    pub fn encode(&self) -> (r: Vec<u8>)
        requires
            self.image_data.wf(),
        ensures
            r@ == enc_image_data(self@),
    {
        let mut data: Vec<u8> = Vec::new();
        data.push(self.lzw_minimum_code_size);
        let chain = self.image_data.encode();
        extend_bytes(&mut data, chain.as_slice());
        proof {
            assert(data@ =~= enc_image_data(self@));
        }
        data
    }
}

impl ImageDescriptor {
    /// Serialises the image descriptor.  An attached graphic control
    /// modifier is emitted first, unless the target version does not
    /// support it.
    pub fn encode(&self, version: &Version) -> (r: Vec<u8>)
        requires
            self.image_data.image_data.wf(),
        ensures
            r@ == enc_image(self@, *version),
    {
        let mut data: Vec<u8> = Vec::new();
        if let Some(gce) = &self.graphic_control_extension {
            if matches!(version, Version::V87a) {
                // The earlier version has no graphic control extensions:
                // the modifier is dropped, the image itself is kept.
            } else {
                let gce_bytes = gce.encode();
                extend_bytes(&mut data, gce_bytes.as_slice());
            }
        }
        data.push(IMAGE_SEPARATOR);
        push_u16(&mut data, self.image_left_position);
        push_u16(&mut data, self.image_top_position);
        push_u16(&mut data, self.image_width);
        push_u16(&mut data, self.image_height);
        data.push(self.packed_fields);
        if let Some(table) = &self.local_color_table {
            extend_bytes(&mut data, table.pixels.as_slice());
        }
        let payload = self.image_data.encode();
        extend_bytes(&mut data, payload.as_slice());
        proof {
            assert(data@ =~= enc_image(self@, *version));
        }
        data
    }
}

impl GraphicRenderingBlock {
    /// Serialises a rendering block; the target version only matters for an
    /// image's attached graphic control modifier.
    pub fn encode(&self, version: &Version) -> (r: Vec<u8>)
        requires
            self.wf(),
        ensures
            r@ == enc_block(self@, *version),
    {
        match self {
            GraphicRenderingBlock::PlainText(block) => block.encode(),
            GraphicRenderingBlock::Image(block) => block.encode(version),
        }
    }
}

impl GifData {
    /// Serialises the whole document for the given target version.  Block
    /// kinds the target version does not support are dropped; the output
    /// always begins with signature, version string and screen descriptor,
    /// and always ends with the trailer byte.
    #[verifier::loop_isolation(false)]
    pub fn encode(&self, version: &Version, discard_comments: bool) -> (r: Vec<u8>)
        requires
            self.wf(),
        ensures
            r@ == enc_doc(self@, *version, discard_comments),
    {
        let mut data: Vec<u8> = Vec::new();
        data.push(0x47);
        data.push(0x49);
        data.push(0x46);
        let version_bytes = version.encode();
        extend_bytes(&mut data, version_bytes.as_slice());
        let screen = self.logical_screen_descriptor.encode();
        extend_bytes(&mut data, screen.as_slice());
        proof {
            assert(data@ =~= seq![0x47u8, 0x49u8, 0x46u8] + enc_version(*version) + enc_screen(
                self@.logical_screen_descriptor,
            ));
        }

        let ghost prefix0 = data@;
        if !matches!(version, Version::V87a) {
            let ghost f = |a: AppExtView| enc_app(a);
            let n = self.application_extensions.len();
            let mut i: usize = 0;
            while i < n
                invariant
                    i <= n,
                    n == self.application_extensions@.len(),
                    self.wf(),
                    data@ == prefix0 + concat_bytes(
                        self@.application_extensions.take(i as int),
                        f,
                    ),
                decreases n - i,
            {
                let ext = self.application_extensions[i].encode();
                extend_bytes(&mut data, ext.as_slice());
                proof {
                    lemma_concat_bytes_take(self@.application_extensions, f, i as int);
                    assert(self@.application_extensions[i as int] == self
                        .application_extensions@[i as int]@);
                    assert(f(self@.application_extensions[i as int]) == enc_app(
                        self@.application_extensions[i as int],
                    ));
                    assert(data@ =~= prefix0 + concat_bytes(
                        self@.application_extensions.take(i as int + 1),
                        f,
                    ));
                }
                i = i + 1;
            }
            proof {
                assert(self@.application_extensions.take(n as int) =~= self@
                    .application_extensions);
            }
        }
        proof {
            assert(data@ == prefix0 + enc_apps(self@.application_extensions, *version));
        }

        let ghost prefix1 = data@;
        if !discard_comments && !matches!(version, Version::V87a) {
            let ghost f = |c: Seq<Seq<u8>>| enc_comment(c);
            let n = self.comment_extensions.len();
            let mut i: usize = 0;
            while i < n
                invariant
                    i <= n,
                    n == self.comment_extensions@.len(),
                    self.wf(),
                    data@ == prefix1 + concat_bytes(self@.comment_extensions.take(i as int), f),
                decreases n - i,
            {
                let ext = self.comment_extensions[i].encode();
                extend_bytes(&mut data, ext.as_slice());
                proof {
                    lemma_concat_bytes_take(self@.comment_extensions, f, i as int);
                    assert(self@.comment_extensions[i as int] == self
                        .comment_extensions@[i as int]@);
                    assert(f(self@.comment_extensions[i as int]) == enc_comment(
                        self@.comment_extensions[i as int],
                    ));
                    assert(data@ =~= prefix1 + concat_bytes(
                        self@.comment_extensions.take(i as int + 1),
                        f,
                    ));
                }
                i = i + 1;
            }
            proof {
                assert(self@.comment_extensions.take(n as int) =~= self@.comment_extensions);
            }
        }
        proof {
            assert(data@ == prefix1 + enc_comments(
                self@.comment_extensions,
                *version,
                discard_comments,
            ));
        }

        let ghost prefix2 = data@;
        let ghost v = *version;
        let ghost f = |b: BlockView| enc_block_gated(b, v);
        let n = self.graphic_rendering_blocks.len();
        let mut i: usize = 0;
        while i < n
            invariant
                i <= n,
                n == self.graphic_rendering_blocks@.len(),
                self.wf(),
                v == *version,
                data@ == prefix2 + concat_bytes(self@.graphic_rendering_blocks.take(i as int), f),
            decreases n - i,
        {
            let block = &self.graphic_rendering_blocks[i];
            let skip = match block {
                GraphicRenderingBlock::PlainText(_) => matches!(version, Version::V87a),
                GraphicRenderingBlock::Image(_) => false,
            };
            if !skip {
                let block_bytes = block.encode(version);
                extend_bytes(&mut data, block_bytes.as_slice());
            }
            proof {
                lemma_concat_bytes_take(self@.graphic_rendering_blocks, f, i as int);
                assert(self@.graphic_rendering_blocks[i as int] == self
                    .graphic_rendering_blocks@[i as int]@);
                assert(f(self@.graphic_rendering_blocks[i as int]) == enc_block_gated(
                    self@.graphic_rendering_blocks[i as int],
                    v,
                ));
                assert(data@ =~= prefix2 + concat_bytes(
                    self@.graphic_rendering_blocks.take(i as int + 1),
                    f,
                ));
            }
            i = i + 1;
        }
        proof {
            assert(self@.graphic_rendering_blocks.take(n as int) =~= self@
                .graphic_rendering_blocks);
            assert(data@ == prefix2 + enc_blocks(self@.graphic_rendering_blocks, *version));
        }

        data.push(TRAILER);
        proof {
            assert(data@ =~= enc_doc(self@, *version, discard_comments));
        }
        data
    }
}

} // verus!
