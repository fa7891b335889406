//! Texture formats of effect files and the pixel data that is uploaded for them.

use image_dds::ImageFormat as DdsFormat;
use vstd::prelude::*;

use crate::mipmaps::TextureFormat;

verus! {

/// The block-compressed formats that effect textures come in.
#[derive(Clone, Copy, Debug, PartialEq, Eq, Structural)]
pub enum ImageFormat {
    BC1RgbaUnorm,
    BC1RgbaUnormSrgb,
    BC2RgbaUnorm,
    BC2RgbaUnormSrgb,
    BC3RgbaUnorm,
    BC3RgbaUnormSrgb,
    BC4RUnorm,
    BC4RSnorm,
    BC5RgUnorm,
    BC5RgSnorm,
    BC6hRgbUfloat,
    BC6hRgbSfloat,
    BC7RgbaUnorm,
    BC7RgbaUnormSrgb,
}

/// The high byte of a format number: the channel layout or block type.
pub open spec fn fmt_type(format: u32) -> u8 {
    ((format / 256) % 256) as u8
}

/// The low byte of a format number: how a channel's bits are read.
pub open spec fn fmt_variant(format: u32) -> u8 {
    (format % 256) as u8
}

/// Whether a variant byte says that colours are sRGB-encoded.
pub open spec fn is_srgb(variant: u8) -> bool {
    variant == 0x06
}

/// The block-compressed format of a type and variant byte; none for uncompressed types.
pub open spec fn bc_format(kind: u8, variant: u8) -> Option<ImageFormat> {
    let srgb = is_srgb(variant);
    if kind == 0x1A {
        Some(if srgb { ImageFormat::BC1RgbaUnormSrgb } else { ImageFormat::BC1RgbaUnorm })
    } else if kind == 0x1B {
        Some(if srgb { ImageFormat::BC2RgbaUnormSrgb } else { ImageFormat::BC2RgbaUnorm })
    } else if kind == 0x1C {
        Some(if srgb { ImageFormat::BC3RgbaUnormSrgb } else { ImageFormat::BC3RgbaUnorm })
    } else if kind == 0x1D {
        Some(if variant == 0x02 { ImageFormat::BC4RSnorm } else { ImageFormat::BC4RUnorm })
    } else if kind == 0x1E {
        Some(if variant == 0x02 { ImageFormat::BC5RgSnorm } else { ImageFormat::BC5RgUnorm })
    } else if kind == 0x1F {
        Some(
            if variant == 0x05 { ImageFormat::BC6hRgbUfloat } else { ImageFormat::BC6hRgbSfloat },
        )
    } else if kind == 0x20 {
        Some(if srgb { ImageFormat::BC7RgbaUnormSrgb } else { ImageFormat::BC7RgbaUnorm })
    } else {
        None
    }
}

/// Bytes per four by four block of a block-compressed format.
pub open spec fn block_bytes(format: ImageFormat) -> int {
    match format {
        ImageFormat::BC1RgbaUnorm
        | ImageFormat::BC1RgbaUnormSrgb
        | ImageFormat::BC4RUnorm
        | ImageFormat::BC4RSnorm => 8,
        _ => 16,
    }
}

/// The number of four texel blocks that cover an edge.
pub open spec fn blocks(edge: int) -> int {
    (edge + 3) / 4
}

/// Maps a texture's type and variant byte to the block-compressed format that decodes it.
pub fn bc_image_format(fmt_type: u8, fmt_variant: u8) -> (r: Option<ImageFormat>)
    ensures
        r == bc_format(fmt_type, fmt_variant),
{
    let srgb = fmt_variant == 0x06;
    match fmt_type {
        0x1A => Some(
            if srgb { ImageFormat::BC1RgbaUnormSrgb } else { ImageFormat::BC1RgbaUnorm },
        ),
        0x1B => Some(
            if srgb { ImageFormat::BC2RgbaUnormSrgb } else { ImageFormat::BC2RgbaUnorm },
        ),
        0x1C => Some(
            if srgb { ImageFormat::BC3RgbaUnormSrgb } else { ImageFormat::BC3RgbaUnorm },
        ),
        0x1D => Some(
            if fmt_variant == 0x02 { ImageFormat::BC4RSnorm } else { ImageFormat::BC4RUnorm },
        ),
        0x1E => Some(
            if fmt_variant == 0x02 { ImageFormat::BC5RgSnorm } else { ImageFormat::BC5RgUnorm },
        ),
        0x1F => Some(
            if fmt_variant == 0x05 {
                ImageFormat::BC6hRgbUfloat
            } else {
                ImageFormat::BC6hRgbSfloat
            },
        ),
        0x20 => Some(
            if srgb { ImageFormat::BC7RgbaUnormSrgb } else { ImageFormat::BC7RgbaUnorm },
        ),
        _ => None,
    }
}

/// The RGBA8 pixels that `image_dds` decodes from the blocks of a `w` by `h` image.
pub uninterp spec fn bc_pixels(format: ImageFormat, w: u32, h: u32, data: Seq<u8>) -> Seq<u8>;

/// `image_dds::Surface::decode_rgba8` on a single two-dimensional image. It succeeds exactly where
/// the image has a texel and the data holds all of its blocks; the pixels depend on the format,
/// the size and the data alone, and there are four bytes for each texel.
#[verifier::external_body]
pub(crate) fn decode_rgba8(format: ImageFormat, width: u32, height: u32, data: &[u8]) -> (r: Option<
    Vec<u8>,
>)
    requires
        width as int * height as int * 4 <= usize::MAX,
        (width + 3) * (height + 3) <= usize::MAX,
    ensures
        r is Some <==> (width > 0 && height > 0 && data@.len() >= blocks(width as int) * blocks(
            height as int,
        ) * block_bytes(format)),
        r is Some ==> r->0@ == bc_pixels(format, width, height, data@) && r->0@.len() == width
            * height * 4,
{
    let image_format = match format {
        ImageFormat::BC1RgbaUnorm => DdsFormat::BC1RgbaUnorm, ImageFormat::BC1RgbaUnormSrgb => DdsFormat::BC1RgbaUnormSrgb,
        ImageFormat::BC2RgbaUnorm => DdsFormat::BC2RgbaUnorm, ImageFormat::BC2RgbaUnormSrgb => DdsFormat::BC2RgbaUnormSrgb,
        ImageFormat::BC3RgbaUnorm => DdsFormat::BC3RgbaUnorm, ImageFormat::BC3RgbaUnormSrgb => DdsFormat::BC3RgbaUnormSrgb,
        ImageFormat::BC4RUnorm => DdsFormat::BC4RUnorm, ImageFormat::BC4RSnorm => DdsFormat::BC4RSnorm,
        ImageFormat::BC5RgUnorm => DdsFormat::BC5RgUnorm, ImageFormat::BC5RgSnorm => DdsFormat::BC5RgSnorm,
        ImageFormat::BC6hRgbUfloat => DdsFormat::BC6hRgbUfloat, ImageFormat::BC6hRgbSfloat => DdsFormat::BC6hRgbSfloat,
        ImageFormat::BC7RgbaUnorm => DdsFormat::BC7RgbaUnorm, ImageFormat::BC7RgbaUnormSrgb => DdsFormat::BC7RgbaUnormSrgb,
    };
    let surface = image_dds::Surface { width, height, depth: 1, layers: 1, mipmaps: 1, image_format, data };
    surface.decode_rgba8().ok().map(|s| s.data)
}

/// A texture of an effect file: its size, format and place in the file's texture section.
#[derive(Debug)]
pub struct TextureRes {
    pub tex_name: String,
    pub width: u16,
    pub height: u16,
    pub ftx_format: u32,
    pub ftx_data_offset: u32,
    pub ftx_data_size: u32,
    pub original_format: u32,
    pub original_data_offset: u32,
    pub original_data_size: u32,
    pub wrap_mode: u8,
    pub filter_mode: u8,
    pub mipmap_count: u32,
    pub channel_swizzle: u32,
}

/// One texture to create: its format and size, and its tightly packed first level.
#[derive(Debug)]
pub struct TextureUpload {
    pub format: TextureFormat,
    pub width: u32,
    pub height: u32,
    pub data: Vec<u8>,
    pub bytes_per_row: u32,
}

/// What an upload holds.
pub struct UploadView {
    pub format: TextureFormat,
    pub width: int,
    pub height: int,
    pub data: Seq<u8>,
    pub bytes_per_row: int,
}

impl View for TextureUpload {
    type V = UploadView;

    open spec fn view(&self) -> UploadView {
        UploadView {
            format: self.format,
            width: self.width as int,
            height: self.height as int,
            data: self.data@,
            bytes_per_row: self.bytes_per_row as int,
        }
    }
}

/// What an optional upload holds.
pub open spec fn upload_view(upload: Option<TextureUpload>) -> Option<UploadView> {
    match upload {
        Some(upload) => Some(upload@),
        None => None,
    }
}

/// The four channel sources of a swizzle word, red first. A source is zero (0), one (1), or the
/// red, green, blue or alpha channel (2 to 5).
pub open spec fn channels(swizzle: u32) -> Seq<u8> {
    seq![
        (swizzle % 256) as u8,
        ((swizzle / 256) % 256) as u8,
        ((swizzle / 65536) % 256) as u8,
        (swizzle / 16777216) as u8,
    ]
}

/// The value of one channel source at the pixel that begins at `at`.
pub open spec fn pick(pixels: Seq<u8>, at: int, source: u8) -> u8 {
    if source == 0 {
        0
    } else if source == 1 {
        255
    } else if source == 3 {
        pixels[at + 1]
    } else if source == 4 {
        pixels[at + 2]
    } else if source == 5 {
        pixels[at + 3]
    } else {
        pixels[at]
    }
}

/// Each whole RGBA8 pixel with its channels taken from the given sources.
pub open spec fn swizzled(pixels: Seq<u8>, sources: Seq<u8>) -> Seq<u8> {
    Seq::new(
        (pixels.len() / 4 * 4) as nat,
        |k: int| pick(pixels, k / 4 * 4, sources[k % 4]),
    )
}

/// The sources that leave every channel where it is.
pub open spec fn identity_channels() -> Seq<u8> {
    seq![2u8, 3, 4, 5]
}

/// The sources that swap red and blue.
pub open spec fn bgr_channels() -> Seq<u8> {
    seq![4u8, 3, 2, 5]
}

/// Two-channel pixels as a mask: brightness is the inverted green channel, alpha is red.
pub open spec fn inverted_mask(pixels: Seq<u8>) -> Seq<u8> {
    Seq::new(
        (pixels.len() / 4 * 4) as nat,
        |k: int|
            if k % 4 == 3 {
                pixels[k / 4 * 4]
            } else {
                (255 - pixels[k / 4 * 4 + 1]) as u8
            },
    )
}

/// A sixteen bit pixel, low byte first.
pub open spec fn packed_pixel(data: Seq<u8>, at: int) -> int {
    data[at] + 256 * data[at + 1]
}

/// Packed 5-6-5 pixels with each channel moved to the top bits of a byte, and opaque alpha.
pub open spec fn expanded_565(data: Seq<u8>) -> Seq<u8> {
    Seq::new(
        (data.len() / 2 * 4) as nat,
        |k: int|
            {
                let v = packed_pixel(data, k / 4 * 2);
                if k % 4 == 0 {
                    ((v % 32) * 8) as u8
                } else if k % 4 == 1 {
                    ((v / 32 % 64) * 4) as u8
                } else if k % 4 == 2 {
                    ((v / 2048) * 8) as u8
                } else {
                    255
                }
            },
    )
}

/// Every `stride`th byte as the alpha of a white pixel.
pub open spec fn white_with_alpha(data: Seq<u8>, stride: int) -> Seq<u8> {
    Seq::new(
        (data.len() / stride as nat * 4) as nat,
        |k: int|
            if k % 4 == 3 {
                data[k / 4 * stride]
            } else {
                255
            },
    )
}

/// Every byte as all four channels of a pixel.
pub open spec fn grey_with_alpha(data: Seq<u8>) -> Seq<u8> {
    Seq::new(data.len() * 4, |k: int| data[k / 4])
}

/// Whether an uncompressed texture stores blue first: its type says so, or its swizzle takes red
/// from the blue channel.
pub open spec fn is_bgra(kind: u8, swizzle: u32) -> bool {
    kind == 0x0C || (swizzle != 0 && swizzle % 256 == 4)
}

/// Whether a texture stores blue first.
pub fn is_bgra_from_swizzle(fmt_type: u8, channel_swizzle: u32) -> (r: bool)
    ensures
        r == is_bgra(fmt_type, channel_swizzle),
{
    fmt_type == 0x0C || (channel_swizzle != 0 && channel_swizzle % 256 == 4)
}

fn pick_at(pixels: &Vec<u8>, at: usize, source: u8) -> (r: u8)
    requires
        at + 3 < pixels.len(),
    ensures
        r == pick(pixels@, at as int, source),
{
    match source {
        0 => 0,
        1 => 255,
        3 => pixels[at + 1],
        4 => pixels[at + 2],
        5 => pixels[at + 3],
        _ => pixels[at],
    }
}

/// Each whole pixel with its channels taken from the given sources.
pub fn swizzle_pixels(pixels: &Vec<u8>, r: u8, g: u8, b: u8, a: u8) -> (out: Vec<u8>)
    ensures
        out@ == swizzled(pixels@, seq![r, g, b, a]),
{
    let mut out: Vec<u8> = Vec::new();
    let mut i: usize = 0;
    let ghost sources = seq![r, g, b, a];
    let whole: usize = pixels.len() / 4 * 4;
    while i < whole
        invariant
            i <= whole,
            i % 4 == 0,
            whole == pixels@.len() / 4 * 4,
            whole <= pixels.len(),
            sources == seq![r, g, b, a],
            out@ == swizzled(pixels@, sources).take(i as int),
        decreases whole - i,
    {
        out.push(pick_at(pixels, i, r));
        out.push(pick_at(pixels, i, g));
        out.push(pick_at(pixels, i, b));
        out.push(pick_at(pixels, i, a));
        i = i + 4;
        assert(out@ =~= swizzled(pixels@, sources).take(i as int));
    }
    assert(out@ =~= swizzled(pixels@, sources));
    out
}

/// Swaps the red and blue channel of every whole pixel.
pub fn apply_bgr_swap(pixels: &Vec<u8>) -> (out: Vec<u8>)
    ensures
        out@ == swizzled(pixels@, bgr_channels()),
{
    swizzle_pixels(pixels, 4, 3, 2, 5)
}

/// Swapping red and blue twice gives back every whole pixel.
pub proof fn law_bgr_swap_undoes_itself(pixels: Seq<u8>)
    ensures
        swizzled(swizzled(pixels, bgr_channels()), bgr_channels()) == pixels.take(
            (pixels.len() / 4 * 4) as int,
        ),
{
    let once = swizzled(pixels, bgr_channels());
    let twice = swizzled(once, bgr_channels());
    assert forall|k: int| 0 <= k < twice.len() implies twice[k] == pixels[k] by {
        let at = k / 4 * 4;
        assert(once[at] == pixels[at + 2]);
        assert(once[at + 1] == pixels[at + 1]);
        assert(once[at + 2] == pixels[at]);
        assert(once[at + 3] == pixels[at + 3]);
    }
    assert(twice =~= pixels.take((pixels.len() / 4 * 4) as int));
}

/// Two-channel pixels as a mask.
pub(crate) fn mask_pixels(pixels: &Vec<u8>) -> (out: Vec<u8>)
    ensures
        out@ == inverted_mask(pixels@),
{
    let mut out: Vec<u8> = Vec::new();
    let mut i: usize = 0;
    let whole: usize = pixels.len() / 4 * 4;
    while i < whole
        invariant
            i <= whole,
            i % 4 == 0,
            whole == pixels@.len() / 4 * 4,
            whole <= pixels.len(),
            out@ == inverted_mask(pixels@).take(i as int),
        decreases whole - i,
    {
        let influence: u8 = 255 - pixels[i + 1];
        out.push(influence);
        out.push(influence);
        out.push(influence);
        out.push(pixels[i]);
        i = i + 4;
        assert(out@ =~= inverted_mask(pixels@).take(i as int));
    }
    assert(out@ =~= inverted_mask(pixels@));
    out
}

/// Packed 5-6-5 pixels as RGBA8.
pub(crate) fn expand_565(data: &Vec<u8>) -> (out: Vec<u8>)
    ensures
        out@ == expanded_565(data@),
{
    let mut out: Vec<u8> = Vec::new();
    let mut i: usize = 0;
    let count: usize = data.len() / 2;
    while i < count
        invariant
            i <= count,
            count == data@.len() / 2,
            count * 2 <= data.len(),
            out@ == expanded_565(data@).take(i * 4),
        decreases count - i,
    {
        let v: u32 = data[2 * i] as u32 + 256 * data[2 * i + 1] as u32;
        out.push(((v % 32) * 8) as u8);
        out.push(((v / 32 % 64) * 4) as u8);
        out.push(((v / 2048) * 8) as u8);
        out.push(255u8);
        i = i + 1;
        assert(out@ =~= expanded_565(data@).take(i * 4));
    }
    assert(out@ =~= expanded_565(data@));
    out
}

/// Every byte, or every second byte, as the alpha of a white pixel.
pub(crate) fn whiten(data: &Vec<u8>, stride: usize) -> (out: Vec<u8>)
    requires
        stride == 1 || stride == 2,
    ensures
        out@ == white_with_alpha(data@, stride as int),
{
    let mut out: Vec<u8> = Vec::new();
    let mut i: usize = 0;
    let count: usize = data.len() / stride;
    assert(count * stride <= data.len()) by {
        if stride == 1 {
            assert(count * 1 == count);
        } else {
            assert(count * 2 <= data.len());
        }
    }
    while i < count
        invariant
            i <= count,
            stride == 1 || stride == 2,
            count == data@.len() / stride as nat,
            count * stride <= data.len(),
            out@ == white_with_alpha(data@, stride as int).take(i * 4),
        decreases count - i,
    {
        assert(i * stride < count * stride && i * stride <= usize::MAX) by (nonlinear_arith)
            requires
                i < count,
                0 < stride,
                count * stride <= usize::MAX,
        ;
        out.push(255u8);
        out.push(255u8);
        out.push(255u8);
        out.push(data[i * stride]);
        i = i + 1;
        assert(out@ =~= white_with_alpha(data@, stride as int).take(i * 4));
    }
    assert(out@ =~= white_with_alpha(data@, stride as int));
    out
}

/// Every byte as all four channels of a pixel.
pub(crate) fn replicate_grey(data: &Vec<u8>) -> (out: Vec<u8>)
    ensures
        out@ == grey_with_alpha(data@),
{
    let mut out: Vec<u8> = Vec::new();
    let mut i: usize = 0;
    while i < data.len()
        invariant
            i <= data.len(),
            out@ == grey_with_alpha(data@).take(i * 4),
        decreases data.len() - i,
    {
        out.push(data[i]);
        out.push(data[i]);
        out.push(data[i]);
        out.push(data[i]);
        i = i + 1;
        assert(out@ =~= grey_with_alpha(data@).take(i * 4));
    }
    assert(out@ =~= grey_with_alpha(data@));
    out
}

/// The height of a tile in groups of eight rows, for a texture of the given height.
pub open spec fn tile_height(height: int) -> int {
    let and_half = height + height / 2;
    if and_half >= 128 {
        16
    } else if and_half >= 64 {
        8
    } else if and_half >= 32 {
        4
    } else if and_half >= 16 {
        2
    } else {
        1
    }
}

/// `tegra_swizzle::block_height_mip0`: a tile is the taller the higher the texture is.
#[verifier::external_body]
fn block_height_mip0(height: u32) -> (r: u32)
    requires
        height <= 0x8000_0000,
    ensures
        r == tile_height(height as int),
{
    tegra_swizzle::block_height_mip0(height) as u32
}

/// The bytes that `tegra_swizzle` untiles from a surface: its size in texels, the size of a block,
/// the bytes of a block, the tile height and the tiled bytes. None where the crate refuses it.
pub uninterp spec fn untiled(
    size: (u32, u32),
    block: (u32, u32),
    block_bytes: u32,
    tile: u32,
    data: Seq<u8>,
) -> Option<Seq<u8>>;

/// Whether a surface has no byte.
pub open spec fn is_empty_surface(size: (u32, u32), block_bytes: u32) -> bool {
    size.0 == 0 || size.1 == 0 || block_bytes == 0
}

/// Whether a surface has more bytes than thirty-two bits count.
pub open spec fn is_too_large(size: (u32, u32), block_bytes: u32) -> bool {
    size.0 * size.1 * block_bytes > u32::MAX
}

/// `tegra_swizzle::surface::deswizzle_surface` on one level of one two-dimensional layer. What
/// comes back depends on the arguments alone. A surface without a byte is untiled to nothing, and
/// one of more bytes than thirty-two bits count is refused, both before anything else is computed.
/// In every other surface the tiles that are filled up at its edges must be counted too.
#[verifier::external_body]
fn deswizzle_surface(
    size: (u32, u32),
    block: (u32, u32),
    block_bytes: u32,
    tile: u32,
    data: &[u8],
) -> (r: Option<Vec<u8>>)
    requires
        block.0 > 0,
        block.1 > 0,
        size.0 + block.0 <= u32::MAX,
        size.1 + block.1 <= u32::MAX,
        is_empty_surface(size, block_bytes) || is_too_large(size, block_bytes) || (size.0
            * block_bytes + 64) * (size.1 + 128) <= u32::MAX,
        tile == 1 || tile == 2 || tile == 4 || tile == 8 || tile == 16,
    ensures
        match r {
            Some(bytes) => untiled(size, block, block_bytes, tile, data@) == Some(bytes@),
            None => untiled(size, block, block_bytes, tile, data@) is None,
        },
        is_empty_surface(size, block_bytes) ==> r is Some && r->0@.len() == 0,
        is_too_large(size, block_bytes) ==> r is None,
{
    let one = std::num::NonZeroU32::MIN;
    let block_dim = tegra_swizzle::surface::BlockDim {
        width: std::num::NonZeroU32::new(block.0).unwrap_or(one),
        height: std::num::NonZeroU32::new(block.1).unwrap_or(one),
        depth: one,
    };
    let tile = tegra_swizzle::BlockHeight::new(tile);
    tegra_swizzle::surface::deswizzle_surface(
        size.0, size.1, 1, data, block_dim, tile, block_bytes, 1, 1,
    ).ok()
}

/// What a tiled texture holds row by row: the data as it is where it is linear or cannot be
/// untiled.
pub open spec fn row_by_row(
    tile_mode: u32,
    data: Seq<u8>,
    untiled_data: Option<Seq<u8>>,
) -> Seq<u8> {
    if tile_mode == 1 {
        data
    } else {
        match untiled_data {
            Some(bytes) => bytes,
            None => data,
        }
    }
}

/// Untiles the data of a texture. Data that is too large to be untiled is handed back as it is.
pub fn deswizzle_tegra(
    width: u32,
    height: u32,
    blk_w: u32,
    blk_h: u32,
    bpp: u32,
    tile_mode: u32,
    data: Vec<u8>,
) -> (r: Vec<u8>)
    requires
        tile_mode != 1 ==> blk_w > 0 && blk_h > 0 && width + blk_w <= u32::MAX && height + blk_h
            <= u32::MAX && (is_empty_surface((width, height), bpp) || is_too_large(
            (width, height),
            bpp,
        ) || (width * bpp + 64) * (height + 128) <= u32::MAX),
    ensures
        r@ == row_by_row(
            tile_mode,
            data@,
            untiled(
                (width, height),
                (blk_w, blk_h),
                bpp,
                tile_height(((height + blk_h - 1) / (blk_h as int) + 7) / 8) as u32,
                data@,
            ),
        ),
        is_too_large((width, height), bpp) ==> r@ == data@,
        tile_mode != 1 && is_empty_surface((width, height), bpp) ==> r@.len() == 0,
{
    if tile_mode == 1 {
        return data;
    }
    let rows: u32 = (height + blk_h - 1) / blk_h;
    assert(rows <= height + blk_h - 1) by (nonlinear_arith)
        requires
            rows == (height + blk_h - 1) / (blk_h as int),
            blk_h > 0,
            height + blk_h - 1 >= 0,
    ;
    let groups: u32 = if rows % 8 == 0 {
        rows / 8
    } else {
        rows / 8 + 1
    };
    let tile = block_height_mip0(groups);
    match deswizzle_surface((width, height), (blk_w, blk_h), bpp, tile, data.as_slice()) {
        Some(bytes) => bytes,
        None => data,
    }
}

/// A swizzle word holds its four sources in its four bytes, red in the lowest.
pub proof fn law_a_word_holds_its_sources(r: u8, g: u8, b: u8, a: u8)
    ensures
        channels((r + 256 * g + 65536 * b + 16777216 * a) as u32) == seq![r, g, b, a],
{
    let word = (r + 256 * g + 65536 * b + 16777216 * a) as u32;
    assert(word == r + 256 * g + 65536 * b + 16777216 * a);
    let upper = g + 256 * b + 65536 * a;
    assert(word == r + 256 * upper);
    assert(word % 256 == r && word / 256 == upper);
    let top = b + 256 * a;
    assert(upper == g + 256 * top);
    assert(upper % 256 == g && upper / 256 == top);
    assert(top % 256 == b && top / 256 == a);
    assert(word / 65536 == top && word / 16777216 == a);
    assert(channels(word) =~= seq![r, g, b, a]);
}

/// A channel takes nothing, everything, or the named channel of its own pixel. What stands behind
/// the last whole pixel is dropped.
pub proof fn law_a_channel_comes_from_its_source(
    pixels: Seq<u8>,
    sources: Seq<u8>,
    i: int,
    c: int,
)
    requires
        sources.len() == 4,
        0 <= i < pixels.len() / 4,
        0 <= c < 4,
    ensures
        swizzled(pixels, sources).len() == pixels.len() - pixels.len() % 4,
        sources[c] == 0 ==> swizzled(pixels, sources)[4 * i + c] == 0,
        sources[c] == 1 ==> swizzled(pixels, sources)[4 * i + c] == 255,
        2 <= sources[c] <= 5 ==> swizzled(pixels, sources)[4 * i + c] == pixels[4 * i + (sources[c]
            - 2)],
        sources[c] > 5 ==> swizzled(pixels, sources)[4 * i + c] == pixels[4 * i],
{
    let k = 4 * i + c;
    assert(k / 4 * 4 == 4 * i && k % 4 == c);
}

/// Every pixel drawn with all channels where they are is the pixel itself.
pub proof fn law_the_identity_moves_nothing(pixels: Seq<u8>)
    requires
        pixels.len() % 4 == 0,
    ensures
        swizzled(pixels, identity_channels()) == pixels,
{
    assert forall|k: int| 0 <= k < pixels.len() implies swizzled(pixels, identity_channels())[k]
        == pixels[k] by {
        assert(k == k / 4 * 4 + k % 4);
    }
    assert(swizzled(pixels, identity_channels()) =~= pixels);
}

/// A packed pixel of five, six and five bits, the first channel in the lowest, is spread to the top
/// bits of three bytes, and is opaque.
pub proof fn law_a_packed_pixel_is_spread(data: Seq<u8>, r: int, g: int, b: int, i: int)
    requires
        0 <= i < data.len() / 2,
        0 <= r < 32,
        0 <= g < 64,
        0 <= b < 32,
        data[2 * i] + 256 * data[2 * i + 1] == r + 32 * g + 2048 * b,
    ensures
        expanded_565(data).len() == 4 * (data.len() / 2),
        expanded_565(data)[4 * i] == 8 * r,
        expanded_565(data)[4 * i + 1] == 4 * g,
        expanded_565(data)[4 * i + 2] == 8 * b,
        expanded_565(data)[4 * i + 3] == 255,
{
    assert(packed_pixel(data, 2 * i) == r + 32 * g + 2048 * b);
    assert((4 * i) / 4 * 2 == 2 * i && (4 * i + 1) / 4 * 2 == 2 * i && (4 * i + 2) / 4 * 2 == 2 * i
        && (4 * i + 3) / 4 * 2 == 2 * i);
    let v = r + 32 * g + 2048 * b;
    assert(v % 32 == r && v / 32 % 64 == g && v / 2048 == b);
}

/// A mask is as dark as its source is green, in all three colours alike, and as opaque as its
/// source is red.
pub proof fn law_a_mask_darkens_with_green(pixels: Seq<u8>, i: int)
    requires
        0 <= i < pixels.len() / 4,
    ensures
        inverted_mask(pixels).len() == pixels.len() - pixels.len() % 4,
        inverted_mask(pixels)[4 * i] + pixels[4 * i + 1] == 255,
        inverted_mask(pixels)[4 * i + 1] + pixels[4 * i + 1] == 255,
        inverted_mask(pixels)[4 * i + 2] + pixels[4 * i + 1] == 255,
        inverted_mask(pixels)[4 * i + 3] == pixels[4 * i],
{
    assert((4 * i) / 4 * 4 == 4 * i && (4 * i + 1) / 4 * 4 == 4 * i && (4 * i + 2) / 4 * 4 == 4 * i
        && (4 * i + 3) / 4 * 4 == 4 * i);
}

/// A texture of one value per texel becomes one pixel per texel: white that is as opaque as the
/// value, which is the first byte of the texel, or grey and opaque by it alike.
pub proof fn law_a_single_value_is_the_alpha(data: Seq<u8>, i: int)
    requires
        0 <= i < data.len(),
    ensures
        white_with_alpha(data, 1).len() == 4 * data.len(),
        white_with_alpha(data, 1)[4 * i] == 255,
        white_with_alpha(data, 1)[4 * i + 1] == 255,
        white_with_alpha(data, 1)[4 * i + 2] == 255,
        white_with_alpha(data, 1)[4 * i + 3] == data[i],
        white_with_alpha(data, 2).len() == 4 * (data.len() / 2),
        2 * i + 1 < data.len() ==> white_with_alpha(data, 2)[4 * i] == 255,
        2 * i + 1 < data.len() ==> white_with_alpha(data, 2)[4 * i + 1] == 255,
        2 * i + 1 < data.len() ==> white_with_alpha(data, 2)[4 * i + 2] == 255,
        2 * i + 1 < data.len() ==> white_with_alpha(data, 2)[4 * i + 3] == data[2 * i],
        grey_with_alpha(data).len() == 4 * data.len(),
        forall|c: int| 0 <= c < 4 ==> #[trigger] grey_with_alpha(data)[4 * i + c] == data[i],
{
    assert(data.len() / 1 == data.len());
    assert((4 * i) / 4 == i && (4 * i + 1) / 4 == i && (4 * i + 2) / 4 == i && (4 * i + 3) / 4
        == i);
    assert((4 * i + 3) / 4 * 1 == i);
    assert((4 * i + 3) / 4 * 2 == 2 * i);
    assert forall|c: int| 0 <= c < 4 implies #[trigger] grey_with_alpha(data)[4 * i + c]
        == data[i] by {
        assert((4 * i + c) / 4 == i);
    }
}

/// The two bytes of a format number are its type and its variant, and each block-compressed type
/// and variant is decoded as the format of that number. One block of it has the bytes that its kind
/// of compression takes for sixteen texels: eight for one or four bits of colour, else sixteen.
pub proof fn law_format_numbers_name_their_formats(format: u32)
    requires
        format < 65536,
    ensures
        256 * fmt_type(format) + fmt_variant(format) == format,
        ({
            let decoded = bc_format(fmt_type(format), fmt_variant(format));
            &&& decoded is Some <==> 0x1A00 <= format < 0x2100
            &&& format == 0x1A01 ==> decoded == Some(ImageFormat::BC1RgbaUnorm)
            &&& format == 0x1A06 ==> decoded == Some(ImageFormat::BC1RgbaUnormSrgb)
            &&& format == 0x1B01 ==> decoded == Some(ImageFormat::BC2RgbaUnorm)
            &&& format == 0x1B06 ==> decoded == Some(ImageFormat::BC2RgbaUnormSrgb)
            &&& format == 0x1C01 ==> decoded == Some(ImageFormat::BC3RgbaUnorm)
            &&& format == 0x1C06 ==> decoded == Some(ImageFormat::BC3RgbaUnormSrgb)
            &&& format == 0x1D01 ==> decoded == Some(ImageFormat::BC4RUnorm)
            &&& format == 0x1D02 ==> decoded == Some(ImageFormat::BC4RSnorm)
            &&& format == 0x1E01 ==> decoded == Some(ImageFormat::BC5RgUnorm)
            &&& format == 0x1E02 ==> decoded == Some(ImageFormat::BC5RgSnorm)
            &&& format == 0x1F05 ==> decoded == Some(ImageFormat::BC6hRgbUfloat)
            &&& format == 0x1F0A ==> decoded == Some(ImageFormat::BC6hRgbSfloat)
            &&& format == 0x2001 ==> decoded == Some(ImageFormat::BC7RgbaUnorm)
            &&& format == 0x2006 ==> decoded == Some(ImageFormat::BC7RgbaUnormSrgb)
            &&& decoded is Some ==> (block_bytes(decoded->0) == 8 <==> format / 256 == 0x1A
                || format / 256 == 0x1D)
            &&& decoded is Some ==> block_bytes(decoded->0) == 8 || block_bytes(decoded->0) == 16
        }),
{
}

/// The blocks of an edge cover it, and one fewer would not.
pub proof fn law_blocks_just_cover_an_edge(edge: int)
    ensures
        4 * blocks(edge) >= edge,
        4 * (blocks(edge) - 1) < edge,
{
}

/// Blue stands first in the textures of one type, and in those whose swizzle takes red from blue.
pub proof fn law_blue_first_by_type_or_swizzle(kind: u8, word: u32)
    ensures
        is_bgra(kind, word) <==> kind == 12 || channels(word)[0] == 4,
{
}

/// Linear data, and data that cannot be untiled, is taken as it is; tiled data is taken as it was
/// untiled.
pub proof fn law_linear_data_is_taken_as_it_is(
    tile_mode: u32,
    data: Seq<u8>,
    untiled_data: Option<Seq<u8>>,
)
    ensures
        row_by_row(1, data, untiled_data) == data,
        row_by_row(tile_mode, data, None) == data,
        tile_mode != 1 && untiled_data is Some ==> row_by_row(tile_mode, data, untiled_data)
            == untiled_data->0,
{
}

/// A surface is empty exactly where it has no bytes, and too large exactly where its bytes are more
/// than thirty-two bits count; an empty one is never too large.
pub proof fn law_a_surface_is_sized_by_its_bytes(size: (u32, u32), block_bytes: u32)
    ensures
        is_empty_surface(size, block_bytes) <==> (size.0 * size.1) * block_bytes == 0,
        is_too_large(size, block_bytes) <==> (size.0 * size.1) * block_bytes >= 0x1_0000_0000,
        !(is_empty_surface(size, block_bytes) && is_too_large(size, block_bytes)),
{
    let texels = size.0 * size.1;
    assert(texels == 0 <==> size.0 == 0 || size.1 == 0) by (nonlinear_arith)
        requires
            texels == size.0 * size.1,
    ;
    assert(texels * block_bytes == 0 <==> texels == 0 || block_bytes == 0) by (nonlinear_arith);
}

} // verus!
