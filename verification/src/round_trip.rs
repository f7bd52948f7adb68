//! The codec's round-trip theorems: whatever the encoder emits, the decoder
//! reads back unchanged.
//!
//! Each `lemma_*_inverts` lemma states that when the bytes at some offset
//! are the encoding of a value, the matching decoder accepts exactly those
//! bytes and returns exactly that value.  They build up to
//! [`lemma_round_trip`]: decoding an encoder output and re-encoding it for
//! the same target version reproduces the bytes exactly, provided nothing
//! was filtered away for that version.

use vstd::prelude::*;

use crate::decoder::{
    dec_app, dec_chain, dec_doc, dec_ext, dec_gce, dec_image, dec_plain_text, dec_screen,
    dec_signature, dec_stream, dec_sub_block, dec_u16, dec_version, lemma_dec_chain_bounds,
};
use crate::encoder::{
    concat_bytes, enc_app, enc_apps, enc_block_gated, enc_blocks, enc_chain, enc_chunk,
    enc_comment, enc_comments, enc_doc, enc_gce, enc_image_body, enc_image_data,
    enc_plain_text_body, enc_screen, enc_u16, enc_version,
};
use crate::{
    AppExtView, BlockView, DocView, ExtBlockView, GifError, GraphicControlExtension, ImageView,
    PlainTextView, ScreenView, Version, color_table_len, wf_app, wf_chain, wf_doc, wf_image,
    wf_plain_text, wf_screen, APPLICATION_BLOCK_SIZE, APPLICATION_LABEL, BLOCK_TERMINATOR,
    COMMENT_LABEL, EXTENSION_INTRODUCER, GRAPHIC_CONTROL_BLOCK_SIZE, GRAPHIC_CONTROL_LABEL,
    IMAGE_SEPARATOR, PLAIN_TEXT_BLOCK_SIZE, PLAIN_TEXT_LABEL, TRAILER,
};

verus! {

/// When a window of `bytes` equals `a + b`, its left part equals `a` and
/// its right part equals `b`.
proof fn lemma_split_window(bytes: Seq<u8>, off: int, a: Seq<u8>, b: Seq<u8>)
    requires
        0 <= off,
        off + a.len() + b.len() <= bytes.len(),
        bytes.subrange(off, off + a.len() + b.len()) == a + b,
    ensures
        bytes.subrange(off, off + a.len()) == a,
        bytes.subrange(off + a.len(), off + a.len() + b.len()) == b,
{
    assert(bytes.subrange(off, off + a.len()) =~= a) by {
        assert forall|i: int| 0 <= i < a.len() implies bytes[off + i] == a[i] by {
            assert(bytes.subrange(off, off + a.len() + b.len())[i] == bytes[off + i]);
            assert((a + b)[i] == a[i]);
        }
    }
    assert(bytes.subrange(off + a.len(), off + a.len() + b.len()) =~= b) by {
        assert forall|i: int| 0 <= i < b.len() implies bytes[off + a.len() + i] == b[i] by {
            assert(bytes.subrange(off, off + a.len() + b.len())[a.len() + i] == bytes[off + a.len()
                + i]);
            assert((a + b)[a.len() + i] == b[i]);
        }
    }
}

/// The two big-endian bytes of a 16-bit value read back as that value.
proof fn lemma_u16_round_trip(x: u16)
    ensures
        ((((x >> 8) as u8) as u16) << 8) | ((x as u8) as u16) == x,
{
    assert(((((x >> 8) as u8) as u16) << 8) | ((x as u8) as u16) == x) by (bit_vector);
}

/// Two bytes holding the big-endian halves of `x` decode back to `x`.
proof fn lemma_enc_u16_inverts(bytes: Seq<u8>, off: int, x: u16)
    requires
        0 <= off,
        off + 2 <= bytes.len(),
        bytes[off] == (x >> 8) as u8,
        bytes[off + 1] == x as u8,
    ensures
        dec_u16(bytes, off) == x,
{
    lemma_u16_round_trip(x);
}

/// A window holding `enc_version(v)` decodes back to `v`.
proof fn lemma_version_inverts(bytes: Seq<u8>, off: int, v: Version)
    requires
        0 <= off,
        off + 3 <= bytes.len(),
        bytes.subrange(off, off + 3) == enc_version(v),
    ensures
        dec_version(bytes, off) == Ok::<(Version, int), GifError>((v, off + 3)),
{
    assert(bytes[off] == enc_version(v)[0]);
    assert(bytes[off + 1] == enc_version(v)[1]);
    assert(bytes[off + 2] == enc_version(v)[2]);
}

/// A window holding `enc_gce(g)` decodes back to `g`; the decoder starts
/// after the two label bytes.
proof fn lemma_gce_inverts(bytes: Seq<u8>, off: int, g: GraphicControlExtension)
    requires
        0 <= off,
        off + 8 <= bytes.len(),
        bytes.subrange(off, off + 8) == enc_gce(g),
    ensures
        dec_gce(bytes, off + 2) == Ok::<(GraphicControlExtension, int), GifError>((g, off + 8)),
        bytes[off] == EXTENSION_INTRODUCER,
        bytes[off + 1] == GRAPHIC_CONTROL_LABEL,
{
    let e = enc_gce(g);
    assert forall|i: int| 0 <= i < 8 implies bytes[off + i] == e[i] by {
        assert(e[i] == bytes.subrange(off, off + 8)[i]);
    }
    assert(e[0] == EXTENSION_INTRODUCER);
    assert(e[1] == GRAPHIC_CONTROL_LABEL);
    assert(e[2] == GRAPHIC_CONTROL_BLOCK_SIZE);
    assert(e[3] == g.packed_fields);
    assert(e[4] == enc_u16(g.delay_time)[0]);
    assert(e[5] == enc_u16(g.delay_time)[1]);
    assert(e[6] == g.transparent_color_index);
    assert(e[7] == BLOCK_TERMINATOR);
    lemma_u16_round_trip(g.delay_time);
}

/// A window holding `enc_screen(s)` decodes back to `s`.
proof fn lemma_screen_inverts(bytes: Seq<u8>, off: int, s: ScreenView)
    requires
        0 <= off,
        wf_screen(s),
        off + enc_screen(s).len() <= bytes.len(),
        bytes.subrange(off, off + enc_screen(s).len()) == enc_screen(s),
    ensures
        dec_screen(bytes, off) == Ok::<(ScreenView, int), GifError>(
            (s, off + enc_screen(s).len()),
        ),
{
    let e = enc_screen(s);
    let table = match s.global_color_table {
        Some(t) => t,
        None => Seq::<u8>::empty(),
    };
    let a = enc_u16(s.logical_screen_width);
    let b = enc_u16(s.logical_screen_height);
    let c = seq![s.packed_fields, s.background_color_index, s.pixel_aspect_ratio];
    assert(e == a + b + c + table);
    assert forall|i: int| 0 <= i < e.len() implies bytes[off + i] == e[i] by {
        assert(bytes.subrange(off, off + e.len())[i] == bytes[off + i]);
    }
    assert(e[0] == a[0] && e[1] == a[1] && e[2] == b[0] && e[3] == b[1]);
    assert(e[4] == c[0] && e[5] == c[1] && e[6] == c[2]);
    lemma_enc_u16_inverts(bytes, off, s.logical_screen_width);
    lemma_enc_u16_inverts(bytes, off + 2, s.logical_screen_height);
    assert(bytes[off + 4] == s.packed_fields);
    assert(bytes[off + 5] == s.background_color_index);
    assert(bytes[off + 6] == s.pixel_aspect_ratio);
    match s.global_color_table {
        Some(t) => {
            assert(s.packed_fields >> 7 == 1);
            assert(t.len() == color_table_len(s.packed_fields));
            assert(bytes.subrange(off + 7, off + 7 + t.len()) =~= t) by {
                assert forall|i: int| 0 <= i < t.len() implies bytes[off + 7 + i] == t[i] by {
                    assert(e[7 + i] == ((a + b + c) + t)[7 + i]);
                    assert(((a + b + c) + t)[7 + i] == t[i]);
                }
            }
        },
        None => {
            assert(s.packed_fields >> 7 == 0);
            let p = s.packed_fields;
            assert(p >> 7 == 0 ==> p >> 7 != 1) by (bit_vector);
        },
    }
}

/// A window holding `enc_chain(c)` decodes back to `c`.
proof fn lemma_chain_inverts(bytes: Seq<u8>, off: int, c: Seq<Seq<u8>>)
    requires
        0 <= off,
        wf_chain(c),
        off + enc_chain(c).len() <= bytes.len(),
        bytes.subrange(off, off + enc_chain(c).len()) == enc_chain(c),
    ensures
        dec_chain(bytes, off) == Ok::<(Seq<Seq<u8>>, int), GifError>(
            (c, off + enc_chain(c).len()),
        ),
    decreases c.len(),
{
    let e = enc_chain(c);
    let f = |x: Seq<u8>| enc_chunk(x);
    if c.len() == 0 {
        assert(concat_bytes(c, f) == Seq::<u8>::empty());
        assert(e =~= seq![BLOCK_TERMINATOR]);
        assert(bytes[off] == e[0]) by {
            assert(bytes.subrange(off, off + e.len())[0] == bytes[off]);
        }
        assert(dec_sub_block(bytes, off) == Ok::<(Option<Seq<u8>>, int), GifError>(
            (None, off + 1),
        ));
        assert(c =~= Seq::<Seq<u8>>::empty());
    } else {
        let head = enc_chunk(c[0]);
        let rest = c.drop_first();
        let rest_bytes = enc_chain(rest);
        assert(concat_bytes(c, f) == f(c[0]) + concat_bytes(rest, f));
        assert(e =~= head + rest_bytes);
        assert(bytes.subrange(off, off + head.len() + rest_bytes.len()) == head + rest_bytes);
        lemma_split_window(bytes, off, head, rest_bytes);
        let chunk_len = c[0].len() as int;
        assert(1 <= chunk_len <= 255);
        assert(head =~= seq![c[0].len() as u8] + c[0]);
        lemma_split_window(bytes, off, seq![c[0].len() as u8], c[0]);
        assert(bytes[off] == c[0].len() as u8) by {
            assert(bytes.subrange(off, off + 1)[0] == bytes[off]);
        }
        assert(bytes[off] as int == chunk_len);
        assert(bytes[off] != BLOCK_TERMINATOR);
        assert(dec_sub_block(bytes, off) == Ok::<(Option<Seq<u8>>, int), GifError>(
            (Some(c[0]), off + 1 + chunk_len),
        ));
        assert(wf_chain(rest)) by {
            assert(forall|i: int| 0 <= i < rest.len() ==> rest[i] == c[i + 1]);
        }
        lemma_chain_inverts(bytes, off + head.len(), rest);
        assert(off + head.len() == off + 1 + chunk_len);
        assert(seq![c[0]] + rest =~= c);
        assert(off + head.len() + rest_bytes.len() == off + e.len());
    }
}

/// A window holding `enc_app(a)` decodes back to `a`; the decoder starts
/// after the two label bytes.
proof fn lemma_app_inverts(bytes: Seq<u8>, off: int, a: AppExtView)
    requires
        0 <= off,
        wf_app(a),
        off + enc_app(a).len() <= bytes.len(),
        bytes.subrange(off, off + enc_app(a).len()) == enc_app(a),
    ensures
        dec_app(bytes, off + 2) == Ok::<(AppExtView, int), GifError>((a, off + enc_app(a).len())),
        bytes[off] == EXTENSION_INTRODUCER,
        bytes[off + 1] == APPLICATION_LABEL,
{
    let e = enc_app(a);
    let h = seq![EXTENSION_INTRODUCER, APPLICATION_LABEL, APPLICATION_BLOCK_SIZE];
    let fixed = (h + a.identifier) + a.authentication_code;
    let chain = enc_chain(a.data);
    assert(e == fixed + chain);
    assert(fixed.len() == 14);
    lemma_split_window(bytes, off, fixed, chain);
    lemma_split_window(bytes, off, h + a.identifier, a.authentication_code);
    lemma_split_window(bytes, off, h, a.identifier);
    assert forall|j: int| 0 <= j < 3 implies bytes[off + j] == h[j] by {
        assert(bytes.subrange(off, off + 3)[j] == bytes[off + j]);
    }
    assert(h[0] == EXTENSION_INTRODUCER && h[1] == APPLICATION_LABEL && h[2]
        == APPLICATION_BLOCK_SIZE);
    lemma_chain_inverts(bytes, off + 14, a.data);
    lemma_dec_chain_bounds(bytes, off + 14);
    match dec_app(bytes, off + 2) {
        Ok((av, end)) => {
            assert(av =~= a);
            assert(end == off + e.len());
        },
        Err(_) => {
            assert(false);
        },
    }
}

/// A window holding `enc_comment(c)` has its chain decode back to `c`
/// starting after the two label bytes.
proof fn lemma_comment_inverts(bytes: Seq<u8>, off: int, c: Seq<Seq<u8>>)
    requires
        0 <= off,
        wf_chain(c),
        off + enc_comment(c).len() <= bytes.len(),
        bytes.subrange(off, off + enc_comment(c).len()) == enc_comment(c),
    ensures
        dec_chain(bytes, off + 2) == Ok::<(Seq<Seq<u8>>, int), GifError>(
            (c, off + enc_comment(c).len()),
        ),
        bytes[off] == EXTENSION_INTRODUCER,
        bytes[off + 1] == COMMENT_LABEL,
{
    let h = seq![EXTENSION_INTRODUCER, COMMENT_LABEL];
    assert(enc_comment(c) == h + enc_chain(c));
    lemma_split_window(bytes, off, h, enc_chain(c));
    assert forall|j: int| 0 <= j < 2 implies bytes[off + j] == h[j] by {
        assert(bytes.subrange(off, off + 2)[j] == bytes[off + j]);
    }
    lemma_chain_inverts(bytes, off + 2, c);
}

/// A window holding `enc_plain_text_body(p)` decodes back to `p`, with the
/// pending modifier being exactly the one `p` carries; the decoder starts
/// after the two label bytes.
proof fn lemma_plain_text_inverts(bytes: Seq<u8>, off: int, p: PlainTextView)
    requires
        0 <= off,
        wf_plain_text(p),
        off + enc_plain_text_body(p).len() <= bytes.len(),
        bytes.subrange(off, off + enc_plain_text_body(p).len()) == enc_plain_text_body(p),
    ensures
        dec_plain_text(bytes, off + 2, p.graphic_control_extension) == Ok::<
            (PlainTextView, int),
            GifError,
        >((p, off + enc_plain_text_body(p).len())),
        bytes[off] == EXTENSION_INTRODUCER,
        bytes[off + 1] == PLAIN_TEXT_LABEL,
{
    let e = enc_plain_text_body(p);
    let h = seq![EXTENSION_INTRODUCER, PLAIN_TEXT_LABEL, PLAIN_TEXT_BLOCK_SIZE];
    let l = enc_u16(p.text_grid_left_position);
    let t = enc_u16(p.text_grid_top_position);
    let w = enc_u16(p.text_grid_width);
    let hh = enc_u16(p.text_grid_height);
    let c4 = seq![
        p.character_cell_width,
        p.character_cell_height,
        p.text_foreground_color_index,
        p.text_background_color_index,
    ];
    let fixed = ((((h + l) + t) + w) + hh) + c4;
    let chain = enc_chain(p.data);
    assert(e == fixed + chain);
    assert(fixed.len() == 15);
    lemma_split_window(bytes, off, fixed, chain);
    assert forall|i: int| 0 <= i < 15 implies bytes[off + i] == fixed[i] by {
        assert(bytes.subrange(off, off + 15)[i] == bytes[off + i]);
    }
    assert(fixed[0] == h[0] && fixed[1] == h[1] && fixed[2] == h[2]);
    assert(fixed[3] == l[0] && fixed[4] == l[1]);
    assert(fixed[5] == t[0] && fixed[6] == t[1]);
    assert(fixed[7] == w[0] && fixed[8] == w[1]);
    assert(fixed[9] == hh[0] && fixed[10] == hh[1]);
    assert(fixed[11] == c4[0] && fixed[12] == c4[1] && fixed[13] == c4[2] && fixed[14] == c4[3]);
    lemma_enc_u16_inverts(bytes, off + 3, p.text_grid_left_position);
    lemma_enc_u16_inverts(bytes, off + 5, p.text_grid_top_position);
    lemma_enc_u16_inverts(bytes, off + 7, p.text_grid_width);
    lemma_enc_u16_inverts(bytes, off + 9, p.text_grid_height);
    lemma_chain_inverts(bytes, off + 15, p.data);
    match dec_plain_text(bytes, off + 2, p.graphic_control_extension) {
        Ok((pv, end)) => {
            assert(pv =~= p);
            assert(end == off + e.len());
        },
        Err(_) => {
            assert(false);
        },
    }
}

/// A window holding `enc_image_body(i)` decodes back to `i`, with the
/// pending modifier being exactly the one `i` carries; the decoder starts
/// after the separator byte.
proof fn lemma_image_inverts(bytes: Seq<u8>, off: int, i: ImageView)
    requires
        0 <= off,
        wf_image(i),
        off + enc_image_body(i).len() <= bytes.len(),
        bytes.subrange(off, off + enc_image_body(i).len()) == enc_image_body(i),
    ensures
        dec_image(bytes, off + 1, i.graphic_control_extension) == Ok::<(ImageView, int), GifError>(
            (i, off + enc_image_body(i).len()),
        ),
        bytes[off] == IMAGE_SEPARATOR,
{
    let e = enc_image_body(i);
    let h = seq![IMAGE_SEPARATOR];
    let l = enc_u16(i.image_left_position);
    let t = enc_u16(i.image_top_position);
    let w = enc_u16(i.image_width);
    let hh = enc_u16(i.image_height);
    let pk = seq![i.packed_fields];
    let table = match i.local_color_table {
        Some(tb) => tb,
        None => Seq::<u8>::empty(),
    };
    let payload = enc_image_data(i.image_data);
    let fixed = ((((h + l) + t) + w) + hh) + pk;
    assert(e == (fixed + table) + payload);
    assert(fixed.len() == 10);
    lemma_split_window(bytes, off, fixed + table, payload);
    lemma_split_window(bytes, off, fixed, table);
    assert forall|j: int| 0 <= j < 10 implies bytes[off + j] == fixed[j] by {
        assert(bytes.subrange(off, off + 10)[j] == bytes[off + j]);
    }
    assert(fixed[0] == h[0]);
    assert(fixed[1] == l[0] && fixed[2] == l[1]);
    assert(fixed[3] == t[0] && fixed[4] == t[1]);
    assert(fixed[5] == w[0] && fixed[6] == w[1]);
    assert(fixed[7] == hh[0] && fixed[8] == hh[1]);
    assert(fixed[9] == i.packed_fields);
    lemma_enc_u16_inverts(bytes, off + 1, i.image_left_position);
    lemma_enc_u16_inverts(bytes, off + 3, i.image_top_position);
    lemma_enc_u16_inverts(bytes, off + 5, i.image_width);
    lemma_enc_u16_inverts(bytes, off + 7, i.image_height);
    let table_end = off + 10 + table.len();
    assert(payload == seq![i.image_data.lzw_minimum_code_size] + enc_chain(i.image_data.image_data));
    lemma_split_window(
        bytes,
        table_end,
        seq![i.image_data.lzw_minimum_code_size],
        enc_chain(i.image_data.image_data),
    );
    assert(bytes[table_end] == i.image_data.lzw_minimum_code_size) by {
        assert(bytes.subrange(table_end, table_end + 1)[0] == bytes[table_end]);
    }
    lemma_chain_inverts(bytes, table_end + 1, i.image_data.image_data);
    match i.local_color_table {
        Some(tb) => {
            assert(i.packed_fields >> 7 == 1);
            assert(tb.len() == color_table_len(i.packed_fields));
        },
        None => {
            assert(i.packed_fields >> 7 == 0);
            let p = i.packed_fields;
            assert(p >> 7 == 0 ==> p >> 7 != 1) by (bit_vector);
        },
    }
    match dec_image(bytes, off + 1, i.graphic_control_extension) {
        Ok((iv, end)) => {
            assert(iv =~= i);
            assert(end == off + e.len());
        },
        Err(_) => {
            assert(false);
        },
    }
}

/// The bytes of the stream after the screen descriptor: the filtered block
/// lists in canonical order, then the trailer.
pub open spec fn stream_tail(
    apps: Seq<AppExtView>,
    comments: Seq<Seq<Seq<u8>>>,
    blocks: Seq<BlockView>,
    v: Version,
) -> Seq<u8> {
    enc_apps(apps, v) + enc_comments(comments, v, false) + enc_blocks(blocks, v) + seq![TRAILER]
}

/// Encoding for target version `v` drops nothing: either `v` is the later
/// version, or there is nothing the earlier version would drop — no
/// application extensions, no comments, and only images without an attached
/// graphic control modifier.
pub open spec fn items_unfiltered(
    apps: Seq<AppExtView>,
    comments: Seq<Seq<Seq<u8>>>,
    blocks: Seq<BlockView>,
    v: Version,
) -> bool {
    match v {
        Version::V89a => true,
        Version::V87a => apps.len() == 0 && comments.len() == 0 && forall|i: int|
            0 <= i < blocks.len() ==> ((#[trigger] blocks[i]) matches BlockView::Image(img)
                && img.graphic_control_extension is None),
    }
}

/// Well-formedness of the three item lists.
pub open spec fn wf_items(
    apps: Seq<AppExtView>,
    comments: Seq<Seq<Seq<u8>>>,
    blocks: Seq<BlockView>,
) -> bool {
    &&& forall|i: int| 0 <= i < apps.len() ==> wf_app(#[trigger] apps[i])
    &&& forall|i: int| 0 <= i < comments.len() ==> wf_chain(#[trigger] comments[i])
    &&& forall|i: int|
        0 <= i < blocks.len() ==> crate::wf_block(#[trigger] blocks[i])
}

/// Every plain text block presupposes a global palette, else the decoder
/// drops it.
pub open spec fn plain_text_has_palette(blocks: Seq<BlockView>, has_global_table: bool) -> bool {
    forall|i: int|
        0 <= i < blocks.len() && (#[trigger] blocks[i]) is PlainText ==> has_global_table
}

/// One stream step: an application extension at `off`, followed by a
/// stream that decodes to the remaining items.
proof fn lemma_stream_step_app(
    bytes: Seq<u8>,
    off: int,
    a0: AppExtView,
    rest: (Seq<AppExtView>, Seq<Seq<Seq<u8>>>, Seq<BlockView>),
    has_global_table: bool,
)
    requires
        0 <= off,
        wf_app(a0),
        off + enc_app(a0).len() <= bytes.len(),
        bytes.subrange(off, off + enc_app(a0).len()) == enc_app(a0),
        dec_stream(bytes, off + enc_app(a0).len(), None, has_global_table, false) == Ok::<
            (Seq<AppExtView>, Seq<Seq<Seq<u8>>>, Seq<BlockView>),
            GifError,
        >(rest),
    ensures
        dec_stream(bytes, off, None, has_global_table, false) == Ok::<
            (Seq<AppExtView>, Seq<Seq<Seq<u8>>>, Seq<BlockView>),
            GifError,
        >((seq![a0] + rest.0, rest.1, rest.2)),
{
    lemma_app_inverts(bytes, off, a0);
    let end = off + enc_app(a0).len();
    assert(dec_ext(bytes, off + 1, None, false) == Ok::<
        (Option<ExtBlockView>, Option<GraphicControlExtension>, int),
        GifError,
    >((Some(ExtBlockView::Application(a0)), None, end)));
}

/// One stream step: a comment extension at `off`, followed by a stream
/// that decodes to the remaining items.
proof fn lemma_stream_step_comment(
    bytes: Seq<u8>,
    off: int,
    c0: Seq<Seq<u8>>,
    rest: (Seq<AppExtView>, Seq<Seq<Seq<u8>>>, Seq<BlockView>),
    has_global_table: bool,
)
    requires
        0 <= off,
        wf_chain(c0),
        off + enc_comment(c0).len() <= bytes.len(),
        bytes.subrange(off, off + enc_comment(c0).len()) == enc_comment(c0),
        dec_stream(bytes, off + enc_comment(c0).len(), None, has_global_table, false) == Ok::<
            (Seq<AppExtView>, Seq<Seq<Seq<u8>>>, Seq<BlockView>),
            GifError,
        >(rest),
    ensures
        dec_stream(bytes, off, None, has_global_table, false) == Ok::<
            (Seq<AppExtView>, Seq<Seq<Seq<u8>>>, Seq<BlockView>),
            GifError,
        >((rest.0, seq![c0] + rest.1, rest.2)),
{
    lemma_comment_inverts(bytes, off, c0);
    let end = off + enc_comment(c0).len();
    assert(dec_ext(bytes, off + 1, None, false) == Ok::<
        (Option<ExtBlockView>, Option<GraphicControlExtension>, int),
        GifError,
    >((Some(ExtBlockView::Comment(c0)), None, end)));
}

/// One stream step: a rendering block at `off` — its graphic control
/// modifier first, if the target version keeps it — followed by a stream
/// that decodes to the remaining items.  The screen is assumed to have a
/// global palette whenever the block is a plain text block, so the decoder
/// keeps it.
#[verifier::rlimit(100)]
proof fn lemma_stream_step_block(
    bytes: Seq<u8>,
    off: int,
    b0: BlockView,
    v: Version,
    rest: (Seq<AppExtView>, Seq<Seq<Seq<u8>>>, Seq<BlockView>),
    has_global_table: bool,
)
    requires
        0 <= off,
        crate::wf_block(b0),
        b0 is PlainText ==> v is V89a && has_global_table,
        v is V87a ==> (b0 matches BlockView::Image(img) && img.graphic_control_extension
            is None),
        off + enc_block_gated(b0, v).len() <= bytes.len(),
        bytes.subrange(off, off + enc_block_gated(b0, v).len()) == enc_block_gated(b0, v),
        dec_stream(bytes, off + enc_block_gated(b0, v).len(), None, has_global_table, false)
            == Ok::<(Seq<AppExtView>, Seq<Seq<Seq<u8>>>, Seq<BlockView>), GifError>(rest),
    ensures
        dec_stream(bytes, off, None, has_global_table, false) == Ok::<
            (Seq<AppExtView>, Seq<Seq<Seq<u8>>>, Seq<BlockView>),
            GifError,
        >((rest.0, rest.1, seq![b0] + rest.2)),
{
    match b0 {
        BlockView::Image(img) => {
            match img.graphic_control_extension {
                Some(g) => {
                    assert(v is V89a);
                    assert(enc_block_gated(b0, v) == enc_gce(g) + enc_image_body(img));
                    lemma_split_window(bytes, off, enc_gce(g), enc_image_body(img));
                    lemma_gce_inverts(bytes, off, g);
                    lemma_image_inverts(bytes, off + 8, img);
                    let end2 = off + 8 + enc_image_body(img).len();
                    assert(dec_ext(bytes, off + 1, None, false) == Ok::<
                        (Option<ExtBlockView>, Option<GraphicControlExtension>, int),
                        GifError,
                    >((Some(ExtBlockView::GraphicControl(g)), Some(g), off + 8)));
                    assert(dec_stream(bytes, off + 8, Some(g), has_global_table, false) == Ok::<
                        (Seq<AppExtView>, Seq<Seq<Seq<u8>>>, Seq<BlockView>),
                        GifError,
                    >((rest.0, rest.1, seq![b0] + rest.2)));
                },
                None => {
                    assert(enc_block_gated(b0, v) =~= enc_image_body(img));
                    assert(bytes.subrange(off, off + enc_image_body(img).len())
                        == enc_image_body(img));
                    lemma_image_inverts(bytes, off, img);
                },
            }
        },
        BlockView::PlainText(p) => {
            assert(v is V89a);
            match p.graphic_control_extension {
                Some(g) => {
                    assert(enc_block_gated(b0, v) == enc_gce(g) + enc_plain_text_body(p));
                    lemma_split_window(bytes, off, enc_gce(g), enc_plain_text_body(p));
                    lemma_gce_inverts(bytes, off, g);
                    lemma_plain_text_inverts(bytes, off + 8, p);
                    let end2 = off + 8 + enc_plain_text_body(p).len();
                    assert(dec_ext(bytes, off + 8 + 1, Some(g), false) == Ok::<
                        (Option<ExtBlockView>, Option<GraphicControlExtension>, int),
                        GifError,
                    >((Some(ExtBlockView::PlainText(p)), None, end2)));
                    assert(dec_stream(bytes, off + 8, Some(g), has_global_table, false) == Ok::<
                        (Seq<AppExtView>, Seq<Seq<Seq<u8>>>, Seq<BlockView>),
                        GifError,
                    >((rest.0, rest.1, seq![b0] + rest.2)));
                },
                None => {
                    assert(enc_block_gated(b0, v) =~= enc_plain_text_body(p));
                    assert(bytes.subrange(off, off + enc_plain_text_body(p).len())
                        == enc_plain_text_body(p));
                    lemma_plain_text_inverts(bytes, off, p);
                    let end = off + enc_plain_text_body(p).len();
                    assert(dec_ext(bytes, off + 1, None, false) == Ok::<
                        (Option<ExtBlockView>, Option<GraphicControlExtension>, int),
                        GifError,
                    >((Some(ExtBlockView::PlainText(p)), None, end)));
                },
            }
        },
    }
}

/// A window holding the canonical stream tail decodes back to exactly the
/// three item lists.
#[verifier::rlimit(100)]
proof fn lemma_stream_inverts(
    bytes: Seq<u8>,
    off: int,
    apps: Seq<AppExtView>,
    comments: Seq<Seq<Seq<u8>>>,
    blocks: Seq<BlockView>,
    v: Version,
    has_global_table: bool,
)
    requires
        0 <= off,
        wf_items(apps, comments, blocks),
        items_unfiltered(apps, comments, blocks, v),
        plain_text_has_palette(blocks, has_global_table),
        off + stream_tail(apps, comments, blocks, v).len() <= bytes.len(),
        bytes.subrange(off, off + stream_tail(apps, comments, blocks, v).len()) == stream_tail(
            apps,
            comments,
            blocks,
            v,
        ),
    ensures
        dec_stream(bytes, off, None, has_global_table, false) == Ok::<
            (Seq<AppExtView>, Seq<Seq<Seq<u8>>>, Seq<BlockView>),
            GifError,
        >((apps, comments, blocks)),
    decreases apps.len(), comments.len(), blocks.len(),
{
    let tail = stream_tail(apps, comments, blocks, v);
    if apps.len() > 0 {
        assert(v is V89a);
        let a0 = apps[0];
        let fapp = |x: AppExtView| enc_app(x);
        let rest = apps.drop_first();
        assert(concat_bytes(apps, fapp) == enc_app(a0) + concat_bytes(rest, fapp));
        let rest_tail = stream_tail(rest, comments, blocks, v);
        assert(tail =~= enc_app(a0) + rest_tail);
        lemma_split_window(bytes, off, enc_app(a0), rest_tail);
        let end = off + enc_app(a0).len();
        assert(wf_items(rest, comments, blocks)) by {
            assert(forall|i: int| 0 <= i < rest.len() ==> rest[i] == apps[i + 1]);
        }
        lemma_stream_inverts(bytes, end, rest, comments, blocks, v, has_global_table);
        lemma_stream_step_app(bytes, off, a0, (rest, comments, blocks), has_global_table);
        assert(seq![a0] + rest =~= apps);
    } else if comments.len() > 0 {
        assert(v is V89a);
        let c0 = comments[0];
        let fcom = |x: Seq<Seq<u8>>| enc_comment(x);
        let rest = comments.drop_first();
        assert(concat_bytes(comments, fcom) == enc_comment(c0) + concat_bytes(rest, fcom));
        let rest_tail = stream_tail(apps, rest, blocks, v);
        assert(tail =~= enc_comment(c0) + rest_tail);
        lemma_split_window(bytes, off, enc_comment(c0), rest_tail);
        let end = off + enc_comment(c0).len();
        assert(wf_items(apps, rest, blocks)) by {
            assert(forall|i: int| 0 <= i < rest.len() ==> rest[i] == comments[i + 1]);
        }
        lemma_stream_inverts(bytes, end, apps, rest, blocks, v, has_global_table);
        lemma_stream_step_comment(bytes, off, c0, (apps, rest, blocks), has_global_table);
        assert(seq![c0] + rest =~= comments);
    } else if blocks.len() > 0 {
        let b0 = blocks[0];
        let fblk = |x: BlockView| enc_block_gated(x, v);
        let rest = blocks.drop_first();
        assert(concat_bytes(blocks, fblk) == enc_block_gated(b0, v) + concat_bytes(rest, fblk));
        let rest_tail = stream_tail(apps, comments, rest, v);
        assert(tail =~= enc_block_gated(b0, v) + rest_tail);
        lemma_split_window(bytes, off, enc_block_gated(b0, v), rest_tail);
        let end = off + enc_block_gated(b0, v).len();
        assert(wf_items(apps, comments, rest) && plain_text_has_palette(rest, has_global_table))
            by {
            assert(forall|i: int| 0 <= i < rest.len() ==> rest[i] == blocks[i + 1]);
        }
        assert(items_unfiltered(apps, comments, rest, v)) by {
            assert(forall|i: int| 0 <= i < rest.len() ==> rest[i] == blocks[i + 1]);
        }
        lemma_stream_inverts(bytes, end, apps, comments, rest, v, has_global_table);
        lemma_stream_step_block(bytes, off, b0, v, (apps, comments, rest), has_global_table);
        assert(seq![b0] + rest =~= blocks);
    } else {
        assert(enc_apps(apps, v) == Seq::<u8>::empty());
        assert(enc_comments(comments, v, false) == Seq::<u8>::empty());
        assert(enc_blocks(blocks, v) == Seq::<u8>::empty());
        assert(tail =~= seq![TRAILER]);
        assert(bytes[off] == TRAILER) by {
            assert(bytes.subrange(off, off + 1)[0] == bytes[off]);
        }
        assert(apps =~= Seq::<AppExtView>::empty());
        assert(comments =~= Seq::<Seq<Seq<u8>>>::empty());
        assert(blocks =~= Seq::<BlockView>::empty());
    }
}

/// Encoding `d` for target version `v` drops nothing from the document.
pub open spec fn doc_unfiltered(d: DocView, v: Version) -> bool {
    items_unfiltered(
        d.application_extensions,
        d.comment_extensions,
        d.graphic_rendering_blocks,
        v,
    )
}

/// Round-trip identity for data sub-block chains: encoding any well-formed
/// chunk sequence and decoding the result yields the identical sequence,
/// with every byte consumed.
pub proof fn lemma_chain_round_trip(c: Seq<Seq<u8>>)
    requires
        wf_chain(c),
    ensures
        dec_chain(enc_chain(c), 0) == Ok::<(Seq<Seq<u8>>, int), GifError>(
            (c, enc_chain(c).len() as int),
        ),
{
    let bytes = enc_chain(c);
    assert(bytes.subrange(0, bytes.len() as int) =~= bytes);
    lemma_chain_inverts(bytes, 0, c);
}

/// Sequence concatenation is associative.
proof fn lemma_add_assoc<T>(a: Seq<T>, b: Seq<T>, c: Seq<T>)
    ensures
        (a + b) + c == a + (b + c),
{
    assert((a + b) + c =~= a + (b + c));
}

/// The layout of an encoded document: signature, version string, screen
/// descriptor, then the canonical stream tail.
proof fn lemma_doc_layout(d: DocView, v: Version)
    ensures
        enc_doc(d, v, false) == seq![0x47u8, 0x49u8, 0x46u8] + (enc_version(v) + (enc_screen(
            d.logical_screen_descriptor,
        ) + stream_tail(
            d.application_extensions,
            d.comment_extensions,
            d.graphic_rendering_blocks,
            v,
        ))),
{
    let sg = seq![0x47u8, 0x49u8, 0x46u8];
    let vv = enc_version(v);
    let sc = enc_screen(d.logical_screen_descriptor);
    let ap = enc_apps(d.application_extensions, v);
    let cm = enc_comments(d.comment_extensions, v, false);
    let bl = enc_blocks(d.graphic_rendering_blocks, v);
    let tr = seq![TRAILER];
    assert(enc_doc(d, v, false) == ((((((sg + vv) + sc) + ap) + cm) + bl) + tr));
    lemma_add_assoc(((((sg + vv) + sc) + ap) + cm), bl, tr);
    lemma_add_assoc((((sg + vv) + sc) + ap), cm, bl + tr);
    lemma_add_assoc(((sg + vv) + sc), ap, cm + (bl + tr));
    lemma_add_assoc((sg + vv), sc, ap + (cm + (bl + tr)));
    lemma_add_assoc(sg, vv, sc + (ap + (cm + (bl + tr))));
    lemma_add_assoc(ap + cm, bl, tr);
    lemma_add_assoc(ap, cm, bl + tr);
    assert(stream_tail(d.application_extensions, d.comment_extensions, d.graphic_rendering_blocks, v)
        == ((ap + cm) + bl) + tr);
}

/// Bytes laid out as signature, version string, screen descriptor and
/// canonical stream tail decode to exactly those components.
#[verifier::rlimit(100)]
proof fn lemma_doc_parses(
    bytes: Seq<u8>,
    s: ScreenView,
    apps: Seq<AppExtView>,
    comments: Seq<Seq<Seq<u8>>>,
    blocks: Seq<BlockView>,
    v: Version,
)
    requires
        wf_screen(s),
        wf_items(apps, comments, blocks),
        items_unfiltered(apps, comments, blocks, v),
        plain_text_has_palette(blocks, s.global_color_table is Some),
        bytes == seq![0x47u8, 0x49u8, 0x46u8] + (enc_version(v) + (enc_screen(s) + stream_tail(
            apps,
            comments,
            blocks,
            v,
        ))),
    ensures
        dec_doc(bytes, false) == Ok::<DocView, GifError>(
            DocView {
                version: v,
                logical_screen_descriptor: s,
                application_extensions: apps,
                comment_extensions: comments,
                graphic_rendering_blocks: blocks,
            },
        ),
{
    let tail = stream_tail(apps, comments, blocks, v);
    lemma_header_parses(bytes, s, v, tail);
    let s_end: int = 6 + enc_screen(s).len() as int;
    lemma_stream_inverts(bytes, s_end, apps, comments, blocks, v, s.global_color_table is Some);
}

/// The header of laid-out bytes parses to its components, and the rest of
/// the buffer is the tail.
#[verifier::rlimit(100)]
proof fn lemma_header_parses(bytes: Seq<u8>, s: ScreenView, v: Version, tail: Seq<u8>)
    requires
        wf_screen(s),
        bytes == seq![0x47u8, 0x49u8, 0x46u8] + (enc_version(v) + (enc_screen(s) + tail)),
    ensures
        dec_signature(bytes) == Ok::<int, GifError>(3),
        dec_version(bytes, 3) == Ok::<(Version, int), GifError>((v, 6)),
        dec_screen(bytes, 6) == Ok::<(ScreenView, int), GifError>(
            (s, 6 + enc_screen(s).len() as int),
        ),
        6 + enc_screen(s).len() + tail.len() == bytes.len(),
        bytes.subrange(6 + enc_screen(s).len() as int, bytes.len() as int) == tail,
{
    let sig = seq![0x47u8, 0x49u8, 0x46u8];
    assert(bytes.subrange(0, bytes.len() as int) =~= bytes);
    lemma_split_window(bytes, 0, sig, enc_version(v) + (enc_screen(s) + tail));
    lemma_split_window(bytes, 3, enc_version(v), enc_screen(s) + tail);
    lemma_split_window(bytes, 6, enc_screen(s), tail);
    assert(bytes[0] == 0x47 && bytes[1] == 0x49 && bytes[2] == 0x46) by {
        assert(bytes.subrange(0, 3)[0] == bytes[0]);
        assert(bytes.subrange(0, 3)[1] == bytes[1]);
        assert(bytes.subrange(0, 3)[2] == bytes[2]);
    }
    lemma_version_inverts(bytes, 3, v);
    lemma_screen_inverts(bytes, 6, s);
}

/// Graphic-control attachment: a graphic control extension followed by an
/// image block decodes to a single rendering block — the image — carrying
/// the modifier.
pub proof fn lemma_graphic_control_attachment(
    g: GraphicControlExtension,
    i: ImageView,
    has_global_table: bool,
)
    requires
        wf_image(i),
        i.graphic_control_extension == Some(g),
    ensures
        dec_stream(
            enc_gce(g) + enc_image_body(i) + seq![TRAILER],
            0,
            None,
            has_global_table,
            false,
        ) == Ok::<(Seq<AppExtView>, Seq<Seq<Seq<u8>>>, Seq<BlockView>), GifError>(
            (Seq::empty(), Seq::empty(), seq![BlockView::Image(i)]),
        ),
{
    let bytes = enc_gce(g) + enc_image_body(i) + seq![TRAILER];
    let b0 = BlockView::Image(i);
    let eb = enc_block_gated(b0, Version::V89a);
    assert(eb == enc_gce(g) + enc_image_body(i));
    assert(bytes.subrange(0, eb.len() as int) =~= eb);
    assert(bytes[eb.len() as int] == TRAILER);
    assert(dec_stream(bytes, eb.len() as int, None, has_global_table, false) == Ok::<
        (Seq<AppExtView>, Seq<Seq<Seq<u8>>>, Seq<BlockView>),
        GifError,
    >((Seq::empty(), Seq::empty(), Seq::empty())));
    lemma_stream_step_block(
        bytes,
        0,
        b0,
        Version::V89a,
        (Seq::empty(), Seq::empty(), Seq::empty()),
        has_global_table,
    );
    assert(seq![b0] + Seq::<BlockView>::empty() =~= seq![b0]);
}

/// Graphic-control carry-over without a consumer: a graphic control
/// extension directly before the trailer decodes successfully, and the
/// modifier is silently dropped.
pub proof fn lemma_graphic_control_unused(
    g: GraphicControlExtension,
    has_global_table: bool,
    discard_comments: bool,
)
    ensures
        dec_stream(enc_gce(g) + seq![TRAILER], 0, None, has_global_table, discard_comments)
            == Ok::<(Seq<AppExtView>, Seq<Seq<Seq<u8>>>, Seq<BlockView>), GifError>(
            (Seq::empty(), Seq::empty(), Seq::empty()),
        ),
{
    let bytes = enc_gce(g) + seq![TRAILER];
    assert(bytes.subrange(0, 8) =~= enc_gce(g));
    lemma_gce_inverts(bytes, 0, g);
    assert(bytes[8] == TRAILER);
    assert(dec_ext(bytes, 1, None, discard_comments) == Ok::<
        (Option<ExtBlockView>, Option<GraphicControlExtension>, int),
        GifError,
    >((Some(ExtBlockView::GraphicControl(g)), Some(g), 8)));
    assert(dec_stream(bytes, 8, Some(g), has_global_table, discard_comments) == Ok::<
        (Seq<AppExtView>, Seq<Seq<Seq<u8>>>, Seq<BlockView>),
        GifError,
    >((Seq::empty(), Seq::empty(), Seq::empty())));
}

/// Round-trip identity for documents: decoding a stream this encoder
/// produced for target version `v` (comments kept) yields the document back
/// — only its version field is replaced by `v` — provided nothing was
/// filtered for `v` and every plain text block has a global palette to
/// render with.  Re-encoding that document for `v` therefore reproduces the
/// original bytes exactly.
#[verifier::rlimit(100)]
pub proof fn lemma_round_trip(d: DocView, v: Version)
    requires
        wf_doc(d),
        doc_unfiltered(d, v),
        plain_text_has_palette(
            d.graphic_rendering_blocks,
            d.logical_screen_descriptor.global_color_table is Some,
        ),
    ensures
        dec_doc(enc_doc(d, v, false), false) == Ok::<DocView, GifError>(
            DocView { version: v, ..d },
        ),
        enc_doc(DocView { version: v, ..d }, v, false) == enc_doc(d, v, false),
{
    lemma_doc_layout(d, v);
    lemma_doc_parses(
        enc_doc(d, v, false),
        d.logical_screen_descriptor,
        d.application_extensions,
        d.comment_extensions,
        d.graphic_rendering_blocks,
        v,
    );
}

} // verus!
