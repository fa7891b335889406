//! What is uploaded for each texture of an effect file.

use vstd::prelude::*;

use crate::mipmaps::TextureFormat;
use crate::text::{contains, has_text, lowercase, unicode_lower};
use crate::texture_data::{
    apply_bgr_swap, bc_format, bc_image_format, bc_pixels, bgr_channels, block_bytes, blocks,
    channels, decode_rgba8, expand_565, expanded_565, fmt_type, fmt_variant, grey_with_alpha,
    identity_channels, inverted_mask, is_bgra, is_bgra_from_swizzle, is_srgb,
    law_a_channel_comes_from_its_source, law_a_mask_darkens_with_green,
    law_a_packed_pixel_is_spread, law_a_single_value_is_the_alpha, law_bgr_swap_undoes_itself,
    law_blue_first_by_type_or_swizzle, mask_pixels,
    replicate_grey, swizzle_pixels, swizzled, upload_view, white_with_alpha, whiten, TextureRes,
    TextureUpload, UploadView,
};

verus! {

/// Whether a texture type is block-compressed.
pub open spec fn is_compressed(kind: u8) -> bool {
    0x1A <= kind <= 0x20
}

/// Bytes per row of a texture as it is stored: per row of blocks where it is block-compressed.
/// With `packed`, type 0x07 has two bytes per texel; else it has four like the types not listed.
pub open spec fn row_bytes(kind: u8, w: int, packed: bool) -> int {
    if is_compressed(kind) {
        blocks(w) * (if kind == 0x1A || kind == 0x1D {
            8
        } else {
            16int
        })
    } else if kind == 0x02 {
        w
    } else if kind == 0x09 || kind == 0x0A || (packed && kind == 0x07) {
        w * 2
    } else {
        w * 4
    }
}

/// Bytes of the first level of a texture as it is stored.
pub open spec fn level_bytes(kind: u8, w: int, h: int, packed: bool) -> int {
    row_bytes(kind, w, packed) * (if is_compressed(kind) {
        blocks(h)
    } else {
        h
    })
}

/// Whether the first level's size can be counted in thirty-two bits, and its texels addressed.
pub open spec fn size_fits(res: TextureRes) -> bool {
    &&& level_bytes(fmt_type(res.ftx_format), res.width as int, res.height as int, false)
        <= u32::MAX
    &&& (res.width + 3) * (res.height + 3) * 4 <= usize::MAX
}

/// The bytes that the texture section stores for a texture: none where the texture has no texel,
/// no byte, or reaches past the section.
pub open spec fn stored_bytes(res: TextureRes, section: Seq<u8>) -> Option<Seq<u8>> {
    let from = res.ftx_data_offset as int;
    let to = res.ftx_data_offset + res.ftx_data_size;
    if res.width == 0 || res.height == 0 || res.ftx_data_size == 0 || to > section.len() {
        None
    } else {
        Some(section.subrange(from, to))
    }
}

/// The first level of a texture, where the section stores all of it.
pub open spec fn first_level(res: TextureRes, section: Seq<u8>, packed: bool) -> Option<Seq<u8>> {
    let size = level_bytes(
        fmt_type(res.ftx_format),
        res.width as int,
        res.height as int,
        packed,
    );
    match stored_bytes(res, section) {
        Some(raw) => if raw.len() >= size {
            Some(raw.take(size))
        } else {
            None
        },
        None => None,
    }
}

/// The RGBA8 format of a variant byte.
pub open spec fn rgba_format(variant: u8) -> TextureFormat {
    if is_srgb(variant) {
        TextureFormat::Rgba8UnormSrgb
    } else {
        TextureFormat::Rgba8Unorm
    }
}

/// The format of a colour texture: every supported type is expanded to RGBA8.
pub open spec fn colour_format(kind: u8, variant: u8) -> Option<TextureFormat> {
    if is_compressed(kind) || kind == 0x0B || kind == 0x0C {
        Some(rgba_format(variant))
    } else if kind == 0x02 || kind == 0x07 || kind == 0x09 || kind == 0x0A {
        Some(TextureFormat::Rgba8Unorm)
    } else {
        None
    }
}

/// The format of a texture that is uploaded in its own channel layout.
pub open spec fn native_format(kind: u8, variant: u8) -> Option<TextureFormat> {
    if is_compressed(kind) || kind == 0x0B || kind == 0x0C {
        Some(rgba_format(variant))
    } else if kind == 0x02 {
        Some(TextureFormat::R8Unorm)
    } else if kind == 0x07 {
        Some(TextureFormat::Rgba8Unorm)
    } else if kind == 0x09 {
        Some(TextureFormat::Rg8Unorm)
    } else if kind == 0x0A {
        Some(TextureFormat::R16Unorm)
    } else {
        None
    }
}

/// Whether a texture's name marks it as a distortion map.
pub open spec fn names_indirect(name: Seq<char>) -> bool {
    contains(unicode_lower(name), "indirect"@)
}

/// The decoded pixels of a first level.
pub open spec fn level_pixels(res: TextureRes, data: Seq<u8>) -> Seq<u8> {
    bc_pixels(
        bc_format(fmt_type(res.ftx_format), fmt_variant(res.ftx_format))->0,
        res.width as u32,
        res.height as u32,
        data,
    )
}

/// Pixels under a swizzle word that is neither unset nor the identity; else the pixels as they
/// are.
pub open spec fn reswizzled(pixels: Seq<u8>, word: u32, sources: Seq<u8>) -> Seq<u8> {
    if word != 0 && sources != identity_channels() {
        swizzled(pixels, sources)
    } else {
        pixels
    }
}

/// The pixels of a block-compressed colour texture. A two-channel texture follows its own swizzle
/// where that is asked for and it is no distortion map, and is a mask otherwise; a one-channel
/// texture takes `single`; every other texture follows its swizzle.
pub open spec fn colour_pixels(
    res: TextureRes,
    pixels: Seq<u8>,
    honour_swizzle: bool,
    single: Seq<u8>,
) -> Seq<u8> {
    let kind = fmt_type(res.ftx_format);
    let word = res.channel_swizzle;
    if kind == 0x1E {
        if honour_swizzle && !names_indirect(res.tex_name@) {
            swizzled(pixels, channels(word))
        } else {
            inverted_mask(pixels)
        }
    } else if kind == 0x1D {
        swizzled(pixels, single)
    } else {
        reswizzled(pixels, word, channels(word))
    }
}

/// The pixels of an uncompressed colour texture. With `grey`, a one-byte texture is grey with its
/// own alpha; else it is white.
pub open spec fn colour_bytes(kind: u8, word: u32, data: Seq<u8>, grey: bool) -> Seq<u8> {
    if is_bgra(kind, word) {
        swizzled(data, bgr_channels())
    } else if kind == 0x07 {
        expanded_565(data)
    } else if kind == 0x02 {
        if grey {
            grey_with_alpha(data)
        } else {
            white_with_alpha(data, 1)
        }
    } else if kind == 0x09 || kind == 0x0A {
        white_with_alpha(data, 2)
    } else {
        data
    }
}

/// The sources of a one-channel texture of an emitter: red everywhere.
pub open spec fn red_everywhere() -> Seq<u8> {
    seq![2u8, 2, 2, 2]
}

/// The sources of a mask: white with red as its alpha.
pub open spec fn white_masked_by_red() -> Seq<u8> {
    seq![1u8, 1, 1, 2]
}

/// The sources of a distortion map: red and green as they are, no blue, opaque.
pub open spec fn red_green_offsets() -> Seq<u8> {
    seq![2u8, 3, 0, 1]
}

/// The upload of a colour texture. An emitter's own texture and the textures that are uploaded by
/// index differ in their one-channel types, and in the row length given for packed 5-6-5 texels.
pub open spec fn colour_upload(
    res: TextureRes,
    section: Seq<u8>,
    honour_swizzle: bool,
    by_index: bool,
) -> Option<UploadView> {
    let kind = fmt_type(res.ftx_format);
    let w = res.width as int;
    match (colour_format(kind, fmt_variant(res.ftx_format)), first_level(res, section, true)) {
        (Some(format), Some(data)) => if is_compressed(kind) {
            Some(
                UploadView {
                    format,
                    width: w,
                    height: res.height as int,
                    data: colour_pixels(
                        res,
                        level_pixels(res, data),
                        honour_swizzle,
                        if by_index {
                            white_masked_by_red()
                        } else {
                            red_everywhere()
                        },
                    ),
                    bytes_per_row: w * 4,
                },
            )
        } else {
            Some(
                UploadView {
                    format,
                    width: w,
                    height: res.height as int,
                    data: colour_bytes(kind, res.channel_swizzle, data, by_index),
                    bytes_per_row: if kind == 0x07 && by_index {
                        w * 2
                    } else {
                        w * 4
                    },
                },
            )
        },
        _ => None,
    }
}

/// The pixels of a block-compressed second texture: a mask or, where the emitter says so, a
/// distortion map.
pub open spec fn secondary_pixels(res: TextureRes, pixels: Seq<u8>, indirect: bool) -> Seq<u8> {
    let kind = fmt_type(res.ftx_format);
    if kind == 0x1D || (kind == 0x1E && !indirect) {
        swizzled(pixels, white_masked_by_red())
    } else if kind == 0x1E {
        swizzled(pixels, red_green_offsets())
    } else {
        reswizzled(pixels, res.channel_swizzle, channels(res.channel_swizzle))
    }
}

/// The upload of an emitter's second texture.
pub open spec fn secondary_upload(res: TextureRes, section: Seq<u8>, indirect: bool) -> Option<
    UploadView,
> {
    let kind = fmt_type(res.ftx_format);
    let w = res.width as int;
    match (native_format(kind, fmt_variant(res.ftx_format)), first_level(res, section, false)) {
        (Some(format), Some(data)) => Some(
            UploadView {
                format,
                width: w,
                height: res.height as int,
                data: if is_compressed(kind) {
                    secondary_pixels(res, level_pixels(res, data), indirect)
                } else if is_bgra(kind, res.channel_swizzle) {
                    swizzled(data, bgr_channels())
                } else {
                    data
                },
                bytes_per_row: if is_compressed(kind) {
                    w * 4
                } else {
                    row_bytes(kind, w, false)
                },
            },
        ),
        _ => None,
    }
}

/// The upload of a texture in its own channel layout.
pub open spec fn plain_upload(res: TextureRes, section: Seq<u8>) -> Option<UploadView> {
    let kind = fmt_type(res.ftx_format);
    let w = res.width as int;
    match (native_format(kind, fmt_variant(res.ftx_format)), first_level(res, section, false)) {
        (Some(format), Some(data)) => Some(
            UploadView {
                format,
                width: w,
                height: res.height as int,
                data: if is_compressed(kind) {
                    level_pixels(res, data)
                } else {
                    data
                },
                bytes_per_row: if is_compressed(kind) {
                    w * 4
                } else {
                    row_bytes(kind, w, false)
                },
            },
        ),
        _ => None,
    }
}

/// The upload of a material texture whose first level is stored. A type that is not known is
/// taken for RGBA8.
pub open spec fn material_upload(res: TextureRes, data: Seq<u8>) -> UploadView {
    let kind = fmt_type(res.ftx_format);
    let w = res.width as int;
    UploadView {
        format: match native_format(kind, fmt_variant(res.ftx_format)) {
            Some(format) => format,
            None => TextureFormat::Rgba8Unorm,
        },
        width: w,
        height: res.height as int,
        data: if is_compressed(kind) {
            level_pixels(res, data)
        } else if kind == 0x0C {
            swizzled(data, bgr_channels())
        } else if kind == 0x07 {
            expanded_565(data)
        } else {
            data
        },
        bytes_per_row: if is_compressed(kind) {
            w * 4
        } else {
            row_bytes(kind, w, true)
        },
    }
}

proof fn lemma_compressed_is_bc(kind: u8, variant: u8)
    ensures
        is_compressed(kind) <==> bc_format(kind, variant) is Some,
{
}

proof fn lemma_level_holds_blocks(kind: u8, variant: u8, w: int, h: int, packed: bool)
    requires
        is_compressed(kind),
    ensures
        level_bytes(kind, w, h, packed) == blocks(w) * blocks(h) * block_bytes(
            bc_format(kind, variant)->0,
        ),
{
    let size: int = if kind == 0x1A || kind == 0x1D {
        8
    } else {
        16
    };
    assert(blocks(w) * size * blocks(h) == blocks(w) * blocks(h) * size) by (nonlinear_arith);
}

proof fn lemma_level_bytes_small(kind: u8, w: int, h: int, packed: bool)
    requires
        0 <= w <= 0xffff,
        0 <= h <= 0xffff,
    ensures
        0 <= row_bytes(kind, w, packed) <= 0x40000,
        0 <= level_bytes(kind, w, h, packed) <= 0x40000 * 0x10000,
{
    let row = row_bytes(kind, w, packed);
    let rows: int = if is_compressed(kind) {
        blocks(h)
    } else {
        h
    };
    assert(0 <= row * rows <= 0x40000 * 0x10000) by (nonlinear_arith)
        requires
            0 <= row <= 0x40000,
            0 <= rows <= 0x10000,
    ;
}

fn compressed(kind: u8) -> (r: bool)
    ensures
        r == is_compressed(kind),
{
    0x1A <= kind && kind <= 0x20
}

fn kind_of(res: &TextureRes) -> (kind: u8)
    ensures
        kind == fmt_type(res.ftx_format),
{
    ((res.ftx_format / 256) % 256) as u8
}

fn variant_of(res: &TextureRes) -> (variant: u8)
    ensures
        variant == fmt_variant(res.ftx_format),
{
    (res.ftx_format % 256) as u8
}

fn stored_row_bytes(kind: u8, w: u16, packed: bool) -> (r: u32)
    ensures
        r == row_bytes(kind, w as int, packed),
        r <= 0x40000,
{
    let w: u32 = w as u32;
    if compressed(kind) {
        let across: u32 = (w + 3) / 4;
        if kind == 0x1A || kind == 0x1D {
            across * 8
        } else {
            across * 16
        }
    } else if kind == 0x02 {
        w
    } else if kind == 0x09 || kind == 0x0A || (packed && kind == 0x07) {
        w * 2
    } else {
        w * 4
    }
}

/// The size in bytes of a texture's first level.
fn stored_level_bytes(res: &TextureRes, packed: bool) -> (size: u64)
    ensures
        size == level_bytes(
            fmt_type(res.ftx_format),
            res.width as int,
            res.height as int,
            packed,
        ),
        size <= 0x40000 * 0x10000,
{
    let kind = kind_of(res);
    let row: u64 = stored_row_bytes(kind, res.width, packed) as u64;
    let rows: u64 = if compressed(kind) {
        (res.height as u64 + 3) / 4
    } else {
        res.height as u64
    };
    proof {
        lemma_level_bytes_small(kind, res.width as int, res.height as int, packed);
    }
    row * rows
}

/// Whether a texture's first level can be counted and its texels addressed.
pub fn is_size_fit(res: &TextureRes) -> (r: bool)
    ensures
        r == size_fits(*res),
{
    let size = stored_level_bytes(res, false);
    let w: u64 = res.width as u64 + 3;
    let h: u64 = res.height as u64 + 3;
    assert(0 <= w * h <= 65538 * 65538) by (nonlinear_arith)
        requires
            0 <= w <= 65538,
            0 <= h <= 65538,
    ;
    let texels: u64 = w * h;
    size <= u32::MAX as u64 && texels * 4 <= usize::MAX as u64
}

/// The bytes of a list from `from` up to `to`.
fn bytes_between(v: &Vec<u8>, from: usize, to: usize) -> (r: Vec<u8>)
    requires
        from <= to <= v.len(),
    ensures
        r@ == v@.subrange(from as int, to as int),
{
    let mut r: Vec<u8> = Vec::new();
    let mut i: usize = from;
    while i < to
        invariant
            from <= i <= to <= v.len(),
            r@ == v@.subrange(from as int, i as int),
        decreases to - i,
    {
        r.push(v[i]);
        i = i + 1;
    }
    r
}

/// The first level of a texture, where the section stores all of it.
fn level_of(res: &TextureRes, section: &Vec<u8>, packed: bool) -> (r: Option<Vec<u8>>)
    ensures
        match r {
            Some(data) => first_level(*res, section@, packed) == Some(data@),
            None => first_level(*res, section@, packed) is None,
        },
{
    let from: u64 = res.ftx_data_offset as u64;
    let size: u64 = res.ftx_data_size as u64;
    if res.width == 0 || res.height == 0 || size == 0 || from + size > section.len() as u64 {
        return None;
    }
    let wanted = stored_level_bytes(res, packed);
    if size < wanted {
        return None;
    }
    let data = bytes_between(section, from as usize, (from + wanted) as usize);
    assert(data@ =~= section@.subrange(from as int, from + size).take(wanted as int));
    Some(data)
}

fn rgba_of(variant: u8) -> (r: TextureFormat)
    ensures
        r == rgba_format(variant),
{
    if variant == 0x06 {
        TextureFormat::Rgba8UnormSrgb
    } else {
        TextureFormat::Rgba8Unorm
    }
}

/// The format of a colour texture of the given type and variant byte.
pub fn colour_format_for(kind: u8, variant: u8) -> (r: Option<TextureFormat>)
    ensures
        r == colour_format(kind, variant),
{
    if compressed(kind) || kind == 0x0B || kind == 0x0C {
        Some(rgba_of(variant))
    } else if kind == 0x02 || kind == 0x07 || kind == 0x09 || kind == 0x0A {
        Some(TextureFormat::Rgba8Unorm)
    } else {
        None
    }
}

/// The format of a texture of the given type and variant byte in its own channel layout.
pub fn native_format_for(kind: u8, variant: u8) -> (r: Option<TextureFormat>)
    ensures
        r == native_format(kind, variant),
{
    if compressed(kind) || kind == 0x0B || kind == 0x0C {
        Some(rgba_of(variant))
    } else if kind == 0x02 {
        Some(TextureFormat::R8Unorm)
    } else if kind == 0x07 {
        Some(TextureFormat::Rgba8Unorm)
    } else if kind == 0x09 {
        Some(TextureFormat::Rg8Unorm)
    } else if kind == 0x0A {
        Some(TextureFormat::R16Unorm)
    } else {
        None
    }
}

/// Decodes a stored first level.
fn decode_level(res: &TextureRes, data: &Vec<u8>, Ghost(packed): Ghost<bool>) -> (pixels: Vec<u8>)
    requires
        size_fits(*res),
        is_compressed(fmt_type(res.ftx_format)),
        res.width > 0,
        res.height > 0,
        data@.len() == level_bytes(
            fmt_type(res.ftx_format),
            res.width as int,
            res.height as int,
            packed,
        ),
    ensures
        pixels@ == level_pixels(*res, data@),
{
    let kind = kind_of(res);
    let variant = variant_of(res);
    proof {
        lemma_compressed_is_bc(kind, variant);
        lemma_level_holds_blocks(kind, variant, res.width as int, res.height as int, packed);
        assert(res.width as int * res.height as int * 4 <= (res.width + 3) * (res.height + 3) * 4
            && (res.width + 3) * (res.height + 3) <= (res.width + 3) * (res.height + 3) * 4)
            by (nonlinear_arith)
            requires
                0 <= res.width,
                0 <= res.height,
        ;
    }
    match bc_image_format(kind, variant) {
        Some(format) => match decode_rgba8(
            format,
            res.width as u32,
            res.height as u32,
            data.as_slice(),
        ) {
            Some(pixels) => pixels,
            None => Vec::new(),
        },
        None => Vec::new(),
    }
}

fn is_indirect_name(name: &String) -> (r: bool)
    ensures
        r == names_indirect(name@),
{
    let lower = lowercase(name.as_str());
    has_text(lower.as_str(), "indirect")
}

/// Follows a swizzle word that is neither unset nor the identity.
fn follow_swizzle(pixels: Vec<u8>, word: u32) -> (r: Vec<u8>)
    ensures
        r@ == reswizzled(pixels@, word, channels(word)),
{
    let r: u8 = (word % 256) as u8;
    let g: u8 = ((word / 256) % 256) as u8;
    let b: u8 = ((word / 65536) % 256) as u8;
    let a: u8 = (word / 16777216) as u8;
    assert(channels(word) =~= seq![r, g, b, a]);
    assert(channels(word) == identity_channels() <==> (r == 2 && g == 3 && b == 4 && a == 5)) by {
        assert(channels(word)[0] == r && channels(word)[1] == g && channels(word)[2] == b
            && channels(word)[3] == a);
        assert(identity_channels()[0] == 2 && identity_channels()[1] == 3
            && identity_channels()[2] == 4 && identity_channels()[3] == 5);
        if r == 2 && g == 3 && b == 4 && a == 5 {
            assert(channels(word) =~= identity_channels());
        }
    }
    if word != 0 && !(r == 2 && g == 3 && b == 4 && a == 5) {
        swizzle_pixels(&pixels, r, g, b, a)
    } else {
        pixels
    }
}

/// The pixels of a block-compressed colour texture, from its decoded pixels.
pub fn arrange_colour(
    res: &TextureRes,
    pixels: Vec<u8>,
    honour_swizzle: bool,
    by_index: bool,
) -> (r: Vec<u8>)
    ensures
        r@ == colour_pixels(
            *res,
            pixels@,
            honour_swizzle,
            if by_index {
                white_masked_by_red()
            } else {
                red_everywhere()
            },
        ),
{
    let kind = kind_of(res);
    let word: u32 = res.channel_swizzle;
    if kind == 0x1E {
        if honour_swizzle && !is_indirect_name(&res.tex_name) {
            swizzle_pixels(
                &pixels,
                (word % 256) as u8,
                ((word / 256) % 256) as u8,
                ((word / 65536) % 256) as u8,
                (word / 16777216) as u8,
            )
        } else {
            mask_pixels(&pixels)
        }
    } else if kind == 0x1D {
        if by_index {
            swizzle_pixels(&pixels, 1, 1, 1, 2)
        } else {
            swizzle_pixels(&pixels, 2, 2, 2, 2)
        }
    } else {
        follow_swizzle(pixels, word)
    }
}

/// The pixels of an uncompressed colour texture.
fn expand_colour(kind: u8, word: u32, data: Vec<u8>, grey: bool) -> (r: Vec<u8>)
    ensures
        r@ == colour_bytes(kind, word, data@, grey),
{
    if is_bgra_from_swizzle(kind, word) {
        apply_bgr_swap(&data)
    } else if kind == 0x07 {
        expand_565(&data)
    } else if kind == 0x02 {
        if grey {
            replicate_grey(&data)
        } else {
            whiten(&data, 1)
        }
    } else if kind == 0x09 || kind == 0x0A {
        whiten(&data, 2)
    } else {
        data
    }
}

/// The upload of a colour texture: of an emitter, or by its index in the file.
pub fn colour_texture(
    res: &TextureRes,
    section: &Vec<u8>,
    honour_swizzle: bool,
    by_index: bool,
) -> (r: Option<TextureUpload>)
    requires
        size_fits(*res),
    ensures
        upload_view(r) == colour_upload(*res, section@, honour_swizzle, by_index),
{
    let kind = kind_of(res);
    let format = match colour_format_for(kind, variant_of(res)) {
        Some(format) => format,
        None => {
            return None;
        },
    };
    let data = match level_of(res, section, true) {
        Some(data) => data,
        None => {
            return None;
        },
    };
    let w: u32 = res.width as u32;
    let h: u32 = res.height as u32;
    if compressed(kind) {
        proof {
            lemma_level_bytes_small(kind, w as int, h as int, true);
        }
        let pixels = decode_level(res, &data, Ghost(true));
        let data = arrange_colour(res, pixels, honour_swizzle, by_index);
        Some(TextureUpload { format, width: w, height: h, data, bytes_per_row: w * 4 })
    } else {
        let data = expand_colour(kind, res.channel_swizzle, data, by_index);
        let bytes_per_row: u32 = if kind == 0x07 && by_index {
            w * 2
        } else {
            w * 4
        };
        Some(TextureUpload { format, width: w, height: h, data, bytes_per_row })
    }
}

/// The pixels of a block-compressed second texture, from its decoded pixels.
pub fn arrange_secondary(res: &TextureRes, pixels: Vec<u8>, indirect: bool) -> (r: Vec<u8>)
    ensures
        r@ == secondary_pixels(*res, pixels@, indirect),
{
    let kind = kind_of(res);
    if kind == 0x1D || (kind == 0x1E && !indirect) {
        swizzle_pixels(&pixels, 1, 1, 1, 2)
    } else if kind == 0x1E {
        swizzle_pixels(&pixels, 2, 3, 0, 1)
    } else {
        follow_swizzle(pixels, res.channel_swizzle)
    }
}

/// The upload of an emitter's second texture.
pub fn secondary_texture(res: &TextureRes, section: &Vec<u8>, indirect: bool) -> (r: Option<
    TextureUpload,
>)
    requires
        size_fits(*res),
    ensures
        upload_view(r) == secondary_upload(*res, section@, indirect),
{
    let kind = kind_of(res);
    let format = match native_format_for(kind, variant_of(res)) {
        Some(format) => format,
        None => {
            return None;
        },
    };
    let data = match level_of(res, section, false) {
        Some(data) => data,
        None => {
            return None;
        },
    };
    let w: u32 = res.width as u32;
    let h: u32 = res.height as u32;
    if compressed(kind) {
        proof {
            lemma_level_bytes_small(kind, w as int, h as int, false);
        }
        let pixels = decode_level(res, &data, Ghost(false));
        let data = arrange_secondary(res, pixels, indirect);
        Some(TextureUpload { format, width: w, height: h, data, bytes_per_row: w * 4 })
    } else {
        let bytes_per_row = stored_row_bytes(kind, res.width, false);
        let data = if is_bgra_from_swizzle(kind, res.channel_swizzle) {
            apply_bgr_swap(&data)
        } else {
            data
        };
        Some(TextureUpload { format, width: w, height: h, data, bytes_per_row })
    }
}

/// The upload of a texture in its own channel layout.
pub fn upload_ptcl_embedded_texture(res: &TextureRes, section: &Vec<u8>) -> (r: Option<
    TextureUpload,
>)
    requires
        size_fits(*res),
    ensures
        upload_view(r) == plain_upload(*res, section@),
{
    let kind = kind_of(res);
    let format = match native_format_for(kind, variant_of(res)) {
        Some(format) => format,
        None => {
            return None;
        },
    };
    let data = match level_of(res, section, false) {
        Some(data) => data,
        None => {
            return None;
        },
    };
    let w: u32 = res.width as u32;
    let h: u32 = res.height as u32;
    if compressed(kind) {
        proof {
            lemma_level_bytes_small(kind, w as int, h as int, false);
        }
        let data = decode_level(res, &data, Ghost(false));
        Some(TextureUpload { format, width: w, height: h, data, bytes_per_row: w * 4 })
    } else {
        let bytes_per_row = stored_row_bytes(kind, res.width, false);
        Some(TextureUpload { format, width: w, height: h, data, bytes_per_row })
    }
}

/// Why a material texture cannot be created.
#[derive(Clone, Copy, Debug, PartialEq, Eq, Structural)]
pub enum TextureError {
    /// The texture has no texel.
    ZeroSize { width: u16, height: u16 },
    /// The texture has no byte, or reaches past the texture section.
    OutOfSection { offset: u32, size: u32, section: usize },
    /// The texture's bytes do not hold its first level.
    ShortLevel { actual: u32, expected: u64 },
}

/// When a material texture cannot be created, and why.
pub open spec fn material_error(res: TextureRes, section: Seq<u8>) -> Option<TextureError> {
    let size = level_bytes(fmt_type(res.ftx_format), res.width as int, res.height as int, true);
    if res.width == 0 || res.height == 0 {
        Some(TextureError::ZeroSize { width: res.width, height: res.height })
    } else if res.ftx_data_size == 0 || res.ftx_data_offset + res.ftx_data_size > section.len() {
        Some(
            TextureError::OutOfSection {
                offset: res.ftx_data_offset,
                size: res.ftx_data_size,
                section: section.len() as usize,
            },
        )
    } else if res.ftx_data_size < size {
        Some(TextureError::ShortLevel { actual: res.ftx_data_size, expected: size as u64 })
    } else {
        None
    }
}

/// The upload of a material texture of a model.
pub fn create_texture_from_res(res: &TextureRes, section: &Vec<u8>) -> (r: Result<
    TextureUpload,
    TextureError,
>)
    requires
        size_fits(*res),
    ensures
        match r {
            Ok(upload) => material_error(*res, section@) is None && upload@ == material_upload(
                *res,
                first_level(*res, section@, true)->0,
            ),
            Err(error) => material_error(*res, section@) == Some(error),
        },
{
    if res.width == 0 || res.height == 0 {
        return Err(TextureError::ZeroSize { width: res.width, height: res.height });
    }
    let end: u64 = res.ftx_data_offset as u64 + res.ftx_data_size as u64;
    if res.ftx_data_size == 0 || end > section.len() as u64 {
        return Err(
            TextureError::OutOfSection {
                offset: res.ftx_data_offset,
                size: res.ftx_data_size,
                section: section.len(),
            },
        );
    }
    let expected = stored_level_bytes(res, true);
    let data = match level_of(res, section, true) {
        Some(data) => data,
        None => {
            return Err(TextureError::ShortLevel { actual: res.ftx_data_size, expected });
        },
    };
    let kind = kind_of(res);
    let format = match native_format_for(kind, variant_of(res)) {
        Some(format) => format,
        None => TextureFormat::Rgba8Unorm,
    };
    let w: u32 = res.width as u32;
    let h: u32 = res.height as u32;
    if compressed(kind) {
        proof {
            lemma_level_bytes_small(kind, w as int, h as int, true);
        }
        let data = decode_level(res, &data, Ghost(true));
        return Ok(TextureUpload { format, width: w, height: h, data, bytes_per_row: w * 4 });
    }
    let bytes_per_row = stored_row_bytes(kind, res.width, true);
    let data = if kind == 0x0C {
        apply_bgr_swap(&data)
    } else if kind == 0x07 {
        expand_565(&data)
    } else {
        data
    };
    Ok(TextureUpload { format, width: w, height: h, data, bytes_per_row })
}

/// The bytes that a texel of an uncompressed type takes in the section, and the bytes that a block
/// of sixteen texels of a compressed type takes.
pub open spec fn unit_bytes(kind: u8, packed: bool) -> int {
    match kind {
        2 => 1,
        9 => 2,
        10 => 2,
        26 => 8,
        27 => 16,
        28 => 16,
        29 => 8,
        30 => 16,
        31 => 16,
        32 => 16,
        7 => if packed {
            2
        } else {
            4
        },
        _ => 4,
    }
}

/// The first level of a texture is what the section holds from the texture's offset on: for a
/// compressed texture as many blocks as cover its texels, else as many texels as it has. There is
/// one exactly where the texture has texels, its bytes lie in the section, and they are enough.
pub proof fn law_a_level_is_read_from_its_offset(res: TextureRes, section: Seq<u8>, packed: bool)
    ensures
        ({
            let kind = ((res.ftx_format / 256) % 256) as u8;
            let level = first_level(res, section, packed);
            let units = if 26 <= kind <= 32 {
                ((res.width + 3) / 4) * ((res.height + 3) / 4)
            } else {
                res.width * res.height
            };
            let size = units * unit_bytes(kind, packed);
            let from = res.ftx_data_offset;
            &&& level is Some <==> res.width > 0 && res.height > 0 && res.ftx_data_size > 0 && from
                + res.ftx_data_size <= section.len() && size <= res.ftx_data_size
            &&& level is Some ==> level->0.len() == size
            &&& level is Some ==> forall|k: int|
                0 <= k < size ==> #[trigger] level->0[k] == section[from + k]
        }),
{
    let kind = fmt_type(res.ftx_format);
    let w = res.width as int;
    let h = res.height as int;
    let unit = unit_bytes(kind, packed);
    let size = level_bytes(kind, w, h, packed);
    if is_compressed(kind) {
        let across = (w + 3) / 4;
        let down = (h + 3) / 4;
        assert((across * unit) * down == (across * down) * unit) by (nonlinear_arith);
    } else {
        assert(row_bytes(kind, w, packed) == w * unit);
        assert((w * unit) * h == (w * h) * unit) by (nonlinear_arith);
    }
    assert(size >= 0) by (nonlinear_arith)
        requires
            size == row_bytes(kind, w, packed) * (if is_compressed(kind) {
                blocks(h)
            } else {
                h
            }),
            row_bytes(kind, w, packed) >= 0,
            blocks(h) >= 0,
            h >= 0,
    ;
}

/// Colours are uploaded as sRGB exactly where the format number says so and the type holds colours;
/// textures of a single value never are. Types that are not known are not uploaded at all.
pub proof fn law_upload_formats_follow_the_number(kind: u8, variant: u8)
    ensures
        colour_format(kind, variant) is Some <==> native_format(kind, variant) is Some,
        colour_format(kind, variant) is Some <==> (26 <= kind <= 32 || kind == 2 || kind == 7 || (9
            <= kind <= 12)),
        (colour_format(kind, variant) == Some(TextureFormat::Rgba8UnormSrgb)) == (variant == 6 && (
        26 <= kind <= 32 || kind == 11 || kind == 12)),
        (native_format(kind, variant) == Some(TextureFormat::Rgba8UnormSrgb)) == (variant == 6 && (
        26 <= kind <= 32 || kind == 11 || kind == 12)),
        colour_format(kind, variant) is Some ==> colour_format(kind, variant)->0
            == TextureFormat::Rgba8UnormSrgb || colour_format(kind, variant)->0
            == TextureFormat::Rgba8Unorm,
        (native_format(kind, variant) == Some(TextureFormat::R8Unorm)) == (kind == 2),
        (native_format(kind, variant) == Some(TextureFormat::Rg8Unorm)) == (kind == 9),
        (native_format(kind, variant) == Some(TextureFormat::R16Unorm)) == (kind == 10),
{
}

/// An uncompressed colour texture is uploaded as one pixel of four bytes for each of its texels.
#[verifier::spinoff_prover]
pub proof fn law_a_colour_upload_has_a_pixel_per_texel(
    res: TextureRes,
    section: Seq<u8>,
    honour: bool,
    by_index: bool,
)
    requires
        !is_compressed(fmt_type(res.ftx_format)),
        !is_bgra(fmt_type(res.ftx_format), res.channel_swizzle) || fmt_type(res.ftx_format) == 11
            || fmt_type(res.ftx_format) == 12,
        colour_upload(res, section, honour, by_index) is Some,
    ensures
        colour_upload(res, section, honour, by_index)->0.data.len() == 4 * (res.width * res.height),
        colour_upload(res, section, honour, by_index)->0.width == res.width,
        colour_upload(res, section, honour, by_index)->0.height == res.height,
{
    law_a_level_is_read_from_its_offset(res, section, true);
    let kind = fmt_type(res.ftx_format);
    let data = first_level(res, section, true)->0;
    let texels = res.width * res.height;
    assert(texels >= 0) by (nonlinear_arith)
        requires
            texels == res.width * res.height,
    ;
    if kind == 0x02 {
        assert(unit_bytes(kind, true) == 1);
        assert(data.len() == texels);
        assert(data.len() / 1 == data.len());
        assert(white_with_alpha(data, 1).len() == 4 * texels);
        assert(grey_with_alpha(data).len() == 4 * texels);
    } else if kind == 0x07 || kind == 0x09 || kind == 0x0A {
        assert(unit_bytes(kind, true) == 2);
        assert(data.len() == texels * 2);
        assert(data.len() / 2 == texels);
        assert(white_with_alpha(data, 2).len() == 4 * texels);
        assert(expanded_565(data).len() == 4 * texels);
    } else {
        assert(unit_bytes(kind, true) == 4);
        assert(data.len() == texels * 4);
        assert(data.len() / 4 * 4 == data.len());
        assert(swizzled(data, bgr_channels()).len() == 4 * texels);
    }
}

/// What a texture that is uploaded in its own layout gives: rows of the stated length, one for each
/// row of texels, and the bytes of the section themselves.
pub proof fn law_a_plain_upload_keeps_the_bytes(res: TextureRes, section: Seq<u8>, k: int)
    requires
        !is_compressed(fmt_type(res.ftx_format)),
        plain_upload(res, section) is Some,
    ensures
        plain_upload(res, section)->0.data.len() == plain_upload(res, section)->0.bytes_per_row
            * res.height,
        0 <= k < plain_upload(res, section)->0.data.len() ==> plain_upload(res, section)->0.data[k]
            == section[res.ftx_data_offset + k],
        secondary_upload(res, section, true) == secondary_upload(res, section, false),
        !is_bgra(fmt_type(res.ftx_format), res.channel_swizzle) ==> secondary_upload(
            res,
            section,
            false,
        ) == plain_upload(res, section),
{
    law_a_level_is_read_from_its_offset(res, section, false);
}

/// The pixels of a compressed colour texture, pixel by pixel from the decoded ones. A texture of
/// one channel is a white mask where it is uploaded by its index, and holds its value in every
/// channel where it is an emitter's own; one of two channels is a mask that darkens with green,
/// unless its own swizzle is asked for and it is no distortion map; every other one is as it was
/// decoded unless its swizzle word moves a channel.
pub proof fn law_compressed_colours_by_channel_count(
    res: TextureRes,
    section: Seq<u8>,
    honour: bool,
    by_index: bool,
    i: int,
)
    requires
        is_compressed(fmt_type(res.ftx_format)),
        colour_upload(res, section, honour, by_index) is Some,
        0 <= i < level_pixels(res, first_level(res, section, true)->0).len() / 4,
    ensures
        ({
            let kind = fmt_type(res.ftx_format);
            let decoded = level_pixels(res, first_level(res, section, true)->0);
            let out = colour_upload(res, section, honour, by_index)->0;
            &&& out.bytes_per_row == 4 * res.width
            &&& out.width == res.width && out.height == res.height
            &&& kind == 29 && by_index ==> out.data[4 * i] == 255 && out.data[4 * i + 1] == 255
                && out.data[4 * i + 2] == 255 && out.data[4 * i + 3] == decoded[4 * i]
            &&& kind == 29 && !by_index ==> out.data[4 * i] == decoded[4 * i] && out.data[4 * i + 1]
                == decoded[4 * i] && out.data[4 * i + 2] == decoded[4 * i] && out.data[4 * i + 3]
                == decoded[4 * i]
            &&& kind == 30 && (!honour || contains(unicode_lower(res.tex_name@), "indirect"@))
                ==> out.data[4 * i] + decoded[4 * i + 1] == 255 && out.data[4 * i + 1] == out.data[4
                * i] && out.data[4 * i + 2] == out.data[4 * i] && out.data[4 * i + 3] == decoded[4
                * i]
            &&& kind == 30 && honour && !contains(unicode_lower(res.tex_name@), "indirect"@)
                ==> out.data == swizzled(decoded, channels(res.channel_swizzle))
            &&& kind != 29 && kind != 30 && (res.channel_swizzle == 0 || channels(
                res.channel_swizzle,
            ) == seq![2u8, 3, 4, 5]) ==> out.data == decoded
            &&& kind != 29 && kind != 30 && res.channel_swizzle != 0 && channels(
                res.channel_swizzle,
            ) != seq![2u8, 3, 4, 5] ==> out.data == swizzled(decoded, channels(res.channel_swizzle))
        }),
{
    let decoded = level_pixels(res, first_level(res, section, true)->0);
    let kind = fmt_type(res.ftx_format);
    law_a_mask_darkens_with_green(decoded, i);
    assert forall|c: int| 0 <= c < 4 implies swizzled(
        decoded,
        white_masked_by_red(),
    )[#[trigger] (4 * i + c)] == (if c == 3 {
        decoded[4 * i]
    } else {
        255
    }) && swizzled(decoded, red_everywhere())[4 * i + c] == decoded[4 * i] by {
        law_a_channel_comes_from_its_source(decoded, white_masked_by_red(), i, c);
        law_a_channel_comes_from_its_source(decoded, red_everywhere(), i, c);
    }
    assert(4 * i == 4 * i + 0);
    assert(swizzled(decoded, white_masked_by_red())[4 * i + 0] == 255);
    assert(swizzled(decoded, white_masked_by_red())[4 * i + 1] == 255);
    assert(swizzled(decoded, white_masked_by_red())[4 * i + 2] == 255);
    assert(swizzled(decoded, white_masked_by_red())[4 * i + 3] == decoded[4 * i]);
}

/// The pixels of a compressed second texture, pixel by pixel from the decoded ones: a texture of
/// one channel, and one of two that is no distortion map, is white and as opaque as red; a
/// distortion map keeps red and green, has no blue and is opaque.
pub proof fn law_second_textures_are_masks_or_offsets(
    res: TextureRes,
    section: Seq<u8>,
    indirect: bool,
    i: int,
)
    requires
        fmt_type(res.ftx_format) == 29 || fmt_type(res.ftx_format) == 30,
        secondary_upload(res, section, indirect) is Some,
        0 <= i < level_pixels(res, first_level(res, section, false)->0).len() / 4,
    ensures
        ({
            let decoded = level_pixels(res, first_level(res, section, false)->0);
            let out = secondary_upload(res, section, indirect)->0;
            &&& out.bytes_per_row == 4 * res.width
            &&& if fmt_type(res.ftx_format) == 30 && indirect {
                out.data[4 * i] == decoded[4 * i] && out.data[4 * i + 1] == decoded[4 * i + 1]
                    && out.data[4 * i + 2] == 0 && out.data[4 * i + 3] == 255
            } else {
                out.data[4 * i] == 255 && out.data[4 * i + 1] == 255 && out.data[4 * i + 2] == 255
                    && out.data[4 * i + 3] == decoded[4 * i]
            }
        }),
{
    let decoded = level_pixels(res, first_level(res, section, false)->0);
    let mask = swizzled(decoded, white_masked_by_red());
    let offsets = swizzled(decoded, red_green_offsets());
    law_a_channel_comes_from_its_source(decoded, white_masked_by_red(), i, 0);
    law_a_channel_comes_from_its_source(decoded, white_masked_by_red(), i, 1);
    law_a_channel_comes_from_its_source(decoded, white_masked_by_red(), i, 2);
    law_a_channel_comes_from_its_source(decoded, white_masked_by_red(), i, 3);
    law_a_channel_comes_from_its_source(decoded, red_green_offsets(), i, 0);
    law_a_channel_comes_from_its_source(decoded, red_green_offsets(), i, 1);
    law_a_channel_comes_from_its_source(decoded, red_green_offsets(), i, 2);
    law_a_channel_comes_from_its_source(decoded, red_green_offsets(), i, 3);
    assert(mask[4 * i + 0] == 255 && offsets[4 * i + 0] == decoded[4 * i + 0]);
}

/// A material texture is refused exactly where it has no first level in the section: for its size
/// where it has no texel, for its place where its bytes are not in the section, and for its length
/// where they are too few.
pub proof fn law_a_material_is_refused_without_its_level(res: TextureRes, section: Seq<u8>)
    requires
        section.len() <= usize::MAX,
    ensures
        material_error(res, section) is None <==> first_level(res, section, true) is Some,
        match material_error(res, section) {
            Some(TextureError::ZeroSize { width, height }) => (width == 0 || height == 0)
                && width == res.width && height == res.height,
            Some(TextureError::OutOfSection { offset, size, section: len }) => {
                &&& res.width > 0 && res.height > 0
                &&& size == 0 || offset + size > len
                &&& offset == res.ftx_data_offset && size == res.ftx_data_size && len
                    == section.len()
            },
            Some(TextureError::ShortLevel { actual, expected }) => {
                &&& res.width > 0 && res.height > 0
                &&& 0 < actual < expected
                &&& actual == res.ftx_data_size
            },
            None => true,
        },
{
    law_a_level_is_read_from_its_offset(res, section, true);
    let size = level_bytes(fmt_type(res.ftx_format), res.width as int, res.height as int, true);
    let row = row_bytes(fmt_type(res.ftx_format), res.width as int, true);
    let rows = if is_compressed(fmt_type(res.ftx_format)) {
        blocks(res.height as int)
    } else {
        res.height as int
    };
    assert(row * rows <= 262144 * 65536) by (nonlinear_arith)
        requires
            0 <= row <= 262144,
            0 <= rows <= 65536,
    ;
    assert(size <= u64::MAX);
}

/// An uncompressed colour texture, texel by texel: where blue stands first it is put last; five, six
/// and five bits are spread; a single byte is white by its alpha or, uploaded by its index, grey; the
/// first of two bytes is the alpha of white; and every other texture is as it is stored.
pub proof fn law_uncompressed_colours_by_type(kind: u8, word: u32, data: Seq<u8>, grey: bool, i: int)
    requires
        0 <= i,
        4 * i + 3 < data.len(),
    ensures
        ({
            let out = colour_bytes(kind, word, data, grey);
            let blue_first = kind == 12 || word % 256 == 4;
            &&& blue_first ==> out[4 * i] == data[4 * i + 2] && out[4 * i + 1] == data[4 * i + 1]
                && out[4 * i + 2] == data[4 * i] && out[4 * i + 3] == data[4 * i + 3]
            &&& !blue_first && kind == 7 ==> out.len() == 4 * (data.len() / 2) && out[4 * i + 3]
                == 255 && out[4 * i] == 8 * (data[2 * i] % 32)
            &&& !blue_first && kind == 2 && !grey ==> out[4 * i] == 255 && out[4 * i + 1] == 255
                && out[4 * i + 2] == 255 && out[4 * i + 3] == data[i]
            &&& !blue_first && kind == 2 && grey ==> out[4 * i] == data[i] && out[4 * i + 1]
                == data[i] && out[4 * i + 2] == data[i] && out[4 * i + 3] == data[i]
            &&& !blue_first && (kind == 9 || kind == 10) ==> out[4 * i] == 255 && out[4 * i + 1]
                == 255 && out[4 * i + 2] == 255 && out[4 * i + 3] == data[2 * i]
            &&& !blue_first && kind == 11 ==> out == data
        }),
{
    law_blue_first_by_type_or_swizzle(kind, word);
    law_a_single_value_is_the_alpha(data, i);
    let bgr = bgr_channels();
    law_a_channel_comes_from_its_source(data, bgr, i, 0);
    law_a_channel_comes_from_its_source(data, bgr, i, 1);
    law_a_channel_comes_from_its_source(data, bgr, i, 2);
    law_a_channel_comes_from_its_source(data, bgr, i, 3);
    assert(swizzled(data, bgr)[4 * i + 0] == data[4 * i + 2]);
    let v = data[2 * i] + 256 * data[2 * i + 1];
    let r = v % 32;
    let g = v / 32 % 64;
    let b = v / 2048;
    assert(v == r + 32 * g + 2048 * b && 0 <= b < 32) by {
        let u = v / 32;
        assert(v == r + 32 * u && u == g + 64 * (u / 64) && u / 64 == b);
    }
    law_a_packed_pixel_is_spread(data, r, g, b, i);
    assert(r == data[2 * i] % 32);
    assert(grey_with_alpha(data)[4 * i + 0] == data[i]);
    assert(grey_with_alpha(data)[4 * i + 1] == data[i]);
    assert(grey_with_alpha(data)[4 * i + 2] == data[i]);
    assert(grey_with_alpha(data)[4 * i + 3] == data[i]);
}

/// A material texture keeps its size, its rows and the bytes of the section; only blue that stands
/// first is put last, packed texels are spread and blocks are decoded. An unknown type is taken for
/// plain colour.
pub proof fn law_a_material_keeps_its_texels(res: TextureRes, data: Seq<u8>)
    ensures
        ({
            let kind = (res.ftx_format / 256) % 256;
            let out = material_upload(res, data);
            &&& out.width == res.width && out.height == res.height
            &&& kind == 11 || kind == 2 || kind == 9 || kind == 10 ==> out.data == data
            &&& kind == 12 ==> swizzled(out.data, bgr_channels()) == data.take(
                (data.len() / 4 * 4) as int,
            )
            &&& kind == 7 ==> out.data.len() == 4 * (data.len() / 2)
            &&& out.bytes_per_row == res.width * (if kind == 2 {
                1int
            } else if kind == 7 || kind == 9 || kind == 10 {
                2
            } else {
                4
            })
        }),
{
    law_bgr_swap_undoes_itself(data);
}

/// The size of a texture fits exactly where its first level has no more bytes than thirty-two bits
/// count and its pixels, with those of the blocks at its edges, can be addressed; one of no more than
/// 8192 texels in either direction always fits.
pub proof fn law_ordinary_sizes_fit(res: TextureRes)
    ensures
        size_fits(res) ==> level_bytes(
            fmt_type(res.ftx_format),
            res.width as int,
            res.height as int,
            false,
        ) < 0x1_0000_0000,
        res.width <= 8192 && res.height <= 8192 ==> size_fits(res),
{
    if res.width <= 8192 && res.height <= 8192 {
        let kind = fmt_type(res.ftx_format);
        let w = res.width as int;
        let h = res.height as int;
        let row = row_bytes(kind, w, false);
        let rows = if is_compressed(kind) {
            blocks(h)
        } else {
            h
        };
        assert(0 <= row <= 32784);
        assert(row * rows <= 32784 * 8192) by (nonlinear_arith)
            requires
                0 <= row <= 32784,
                0 <= rows <= 8192,
        ;
        assert((w + 3) * (h + 3) <= 8195 * 8195) by (nonlinear_arith)
            requires
                0 <= w <= 8192,
                0 <= h <= 8192,
        ;
    }
}

} // verus!
