//! Textures: the raster that the ETC blocks of an image make, and the
//! `Texture2D` objects that carry such images.

use vstd::prelude::*;
use vstd::string::StrSliceExecFns;
use crate::bytes::str_eq;
use crate::bytes::string_from_utf8_lossy;
use crate::bytes::utf8_lossy;
use crate::container::UnityFs;
use crate::container::UnityFsView;
use crate::container::spec_resource;
use crate::error::ParseError;
use crate::error::TextureField;
use crate::type_tree::Data;
use crate::type_tree::DataView;
use crate::type_tree::spec_field;
use crate::etc::Block;
use crate::etc::DecodeFormat;
use crate::etc::Pixel;
use crate::etc::block_len;
use crate::etc::block_pixel;
use crate::etc::decode_block_within;
use crate::etc::pixel_at;

verus! {

/// Channel `ch` of a pixel: 0 for red, 1 for green, 2 for blue, 3 for alpha.
pub open spec fn channel(p: Pixel, ch: int) -> u8 {
    if ch == 0 {
        p.r
    } else if ch == 1 {
        p.g
    } else if ch == 2 {
        p.b
    } else {
        p.a
    }
}

/// The number of blocks that cover `n` pixels in one direction.
pub open spec fn blocks_for(n: int) -> int {
    (n + 3) / 4
}

/// The number of bytes that the blocks of an image take.
pub open spec fn texture_input_len(width: u32, height: u32, format: DecodeFormat) -> int {
    blocks_for(width as int) * blocks_for(height as int) * block_len(format)
}

/// The pixel in column `col` of row `row` of an image, rows counted from the
/// top.
///
/// The blocks stand in the input row by row of blocks. The rows of blocks
/// stand in the image from the bottom up: block row `by` fills the image
/// rows from `height - 4 * by - 4` to `height - 4 * by - 1`, its own rows in
/// their order. Within a row of blocks, block `bx` fills the columns from
/// `4 * bx` on. What falls outside the image is dropped.
pub open spec fn texture_pixel(
    s: Seq<u8>,
    width: u32,
    height: u32,
    format: DecodeFormat,
    col: int,
    row: int,
) -> Pixel {
    let k = height - 1 - row;
    let by = k / 4;
    let bx = col / 4;
    block_pixel(
        s,
        (by * blocks_for(width as int) + bx) * block_len(format),
        format,
        col % 4,
        3 - k % 4,
    )
}

/// The image that the blocks of `s` hold: RGBA8, row by row from the top.
pub open spec fn texture_bytes(s: Seq<u8>, width: u32, height: u32, format: DecodeFormat) -> Seq<u8> {
    Seq::new(
        (width * height * 4) as nat,
        |i: int|
            channel(
                texture_pixel(s, width, height, format, (i / 4) % (width as int), (i / 4) / (
                width as int)),
                i % 4,
            ),
    )
}

/// The first pixel of the first block of the input stands in the leftmost
/// column of image row `height - 4`.
pub proof fn lemma_first_block_row(s: Seq<u8>, width: u32, height: u32, format: DecodeFormat)
    requires
        height >= 4,
        width >= 1,
    ensures
        texture_pixel(s, width, height, format, 0, height - 4) == block_pixel(s, 0, format, 0, 0),
{
    assert(0 * blocks_for(width as int) == 0);
}

/// Decodes the tiles of block row `by`.
fn decode_band(input: &[u8], format: DecodeFormat, blocks_wide: usize, by: usize) -> (r: Vec<Block>)
    requires
        (by + 1) * blocks_wide * block_len(format) <= input@.len(),
    ensures
        r@.len() == blocks_wide,
        forall|bx: int, x: int, y: int|
            0 <= bx < blocks_wide && 0 <= x < 4 && 0 <= y < 4 ==> #[trigger] pixel_at(r@[bx], x, y)
                == block_pixel(
                input@,
                (by * blocks_wide + bx) * block_len(format),
                format,
                x,
                y,
            ),
{
    let len: usize = match format {
        DecodeFormat::Etc2Rgba8 => 16,
        _ => 8,
    };
    let mut tiles: Vec<Block> = Vec::new();
    assert(input@.len() == input.len());
    assert(by * blocks_wide * len + blocks_wide * len == (by + 1) * blocks_wide * len)
        by (nonlinear_arith);
    assert(0 <= by * blocks_wide <= by * blocks_wide * len) by (nonlinear_arith)
        requires
            len >= 1,
            0 <= by,
            0 <= blocks_wide,
    ;
    assert(0 <= blocks_wide * len) by (nonlinear_arith)
        requires
            0 <= blocks_wide,
            0 <= len,
    ;
    let start: usize = by * blocks_wide * len;
    let mut bx: usize = 0;
    while bx < blocks_wide
        invariant
            bx <= blocks_wide,
            len == block_len(format),
            start == by * blocks_wide * len,
            start + blocks_wide * len <= input@.len(),
            input@.len() <= usize::MAX,
            tiles@.len() == bx,
            forall|b: int, x: int, y: int|
                0 <= b < bx && 0 <= x < 4 && 0 <= y < 4 ==> #[trigger] pixel_at(tiles@[b], x, y)
                    == block_pixel(input@, (by * blocks_wide + b) * len, format, x, y),
        decreases blocks_wide - bx,
    {
        assert(bx * len + len <= blocks_wide * len) by (nonlinear_arith)
            requires
                bx < blocks_wide,
                len > 0,
        ;
        assert(0 <= bx * len) by (nonlinear_arith);
        assert((by * blocks_wide + bx) * len == by * blocks_wide * len + bx * len)
            by (nonlinear_arith);
        let pos = start + bx * len;
        let tile = decode_block_within(input, pos, format);
        tiles.push(tile);
        bx += 1;
    }
    tiles
}

/// Appends row `r` of a row of tiles to an image, cut at `width` pixels.
fn push_row(out: &mut Vec<u8>, tiles: &Vec<Block>, r: usize, width: u32)
    requires
        r < 4,
        tiles@.len() == blocks_for(width as int),
    ensures
        final(out)@.len() == old(out)@.len() + 4 * width,
        forall|i: int| 0 <= i < old(out)@.len() ==> final(out)@[i] == old(out)@[i],
        forall|col: int, ch: int|
            0 <= col < width && 0 <= ch < 4 ==> #[trigger] final(out)@[old(out)@.len() + 4 * col
                + ch] == channel(pixel_at(tiles@[col / 4], col % 4, r as int), ch),
{
    let mut col: u32 = 0;
    while col < width
        invariant
            col <= width,
            r < 4,
            tiles@.len() == blocks_for(width as int),
            out@.len() == old(out)@.len() + 4 * col,
            forall|i: int| 0 <= i < old(out)@.len() ==> out@[i] == old(out)@[i],
            forall|c: int, ch: int|
                0 <= c < col && 0 <= ch < 4 ==> #[trigger] out@[old(out)@.len() + 4 * c + ch]
                    == channel(pixel_at(tiles@[c / 4], c % 4, r as int), ch),
        decreases width - col,
    {
        let tile = &tiles[(col / 4) as usize];
        let row = tile[r];
        let at = 4 * ((col % 4) as usize);
        let ghost before = out@;
        out.push(row[at]);
        out.push(row[at + 1]);
        out.push(row[at + 2]);
        out.push(row[at + 3]);
        proof {
            assert forall|c: int, ch: int| 0 <= c < col + 1 && 0 <= ch < 4 implies #[trigger] out@[old(
                out,
            )@.len() + 4 * c + ch] == channel(pixel_at(tiles@[c / 4], c % 4, r as int), ch) by {
                if c < col {
                    assert(out@[old(out)@.len() + 4 * c + ch] == before[old(out)@.len() + 4 * c
                        + ch]);
                }
            }
        }
        col += 1;
    }
}

/// Decodes the ETC blocks of an image of `width` by `height` pixels into
/// RGBA8, row by row from the top, four bytes a pixel.
///
/// Fails with `TruncatedInput` where `input` holds fewer blocks than the
/// image needs.
pub fn decode_texture(width: u32, height: u32, format: DecodeFormat, input: &[u8]) -> (r: Result<
    Vec<u8>,
    ParseError,
>)
    ensures
        match r {
            Ok(out) => {
                &&& texture_input_len(width, height, format) <= input@.len()
                &&& out@ == texture_bytes(input@, width, height, format)
                &&& out@.len() == width * height * 4
                &&& forall|row: int, col: int, ch: int|
                    0 <= row < height && 0 <= col < width && 0 <= ch < 4 ==> #[trigger] out@[(row
                        * width + col) * 4 + ch] == channel(
                        texture_pixel(input@, width, height, format, col, row),
                        ch,
                    )
            },
            Err(err) => err == ParseError::TruncatedInput && texture_input_len(
                width,
                height,
                format,
            ) > input@.len(),
        },
{
    let blocks_wide: u64 = (width as u64 + 3) / 4;
    let blocks_high: u64 = (height as u64 + 3) / 4;
    let len: u64 = match format {
        DecodeFormat::Etc2Rgba8 => 16,
        _ => 8,
    };
    assert(0 <= blocks_wide * blocks_high <= 0x4000_0000 * 0x4000_0000) by (nonlinear_arith)
        requires
            0 <= blocks_wide <= 0x4000_0000,
            0 <= blocks_high <= 0x4000_0000,
    ;
    let count: u64 = blocks_wide * blocks_high;
    let total: u128 = count as u128 * len as u128;
    if total > input.len() as u128 {
        return Err(ParseError::TruncatedInput);
    }
    assert(blocks_wide <= blocks_wide * blocks_high * len || blocks_high == 0) by (nonlinear_arith)
        requires
            0 <= blocks_wide,
            0 <= blocks_high,
            len >= 8,
    ;
    let mut out: Vec<u8> = Vec::new();
    if height == 0 {
        assert(width * height * 4 == 0) by (nonlinear_arith)
            requires
                height == 0,
        ;
        assert(out@ =~= texture_bytes(input@, width, height, format));
        return Ok(out);
    }
    let wide = blocks_wide as usize;
    let mut band: u64 = 0;
    let mut row: u64 = 0;
    while band < blocks_high
        invariant
            band <= blocks_high,
            height > 0,
            blocks_wide == blocks_for(width as int),
            blocks_high == blocks_for(height as int),
            wide == blocks_wide,
            len == block_len(format),
            blocks_wide * blocks_high * len <= input@.len(),
            row <= height,
            band == 0 ==> row == 0,
            band > 0 ==> row == height - 4 * (blocks_high - band),
            out@.len() == row * width * 4,
            forall|rr: int, col: int, ch: int|
                0 <= rr < row && 0 <= col < width && 0 <= ch < 4 ==> #[trigger] out@[(rr * width
                    + col) * 4 + ch] == channel(
                    texture_pixel(input@, width, height, format, col, rr),
                    ch,
                ),
        decreases blocks_high - band,
    {
        let by: u64 = blocks_high - 1 - band;
        assert((by + 1) * blocks_wide * len <= blocks_wide * blocks_high * len) by (nonlinear_arith)
            requires
                by + 1 <= blocks_high,
                0 <= blocks_wide,
                0 <= len,
        ;
        let tiles = decode_band(input, format, wide, by as usize);
        let first: u64 = if band == 0 {
            4 * blocks_high - height as u64
        } else {
            0
        };
        let mut r: u64 = first;
        while r < 4
            invariant
                first <= r <= 4,
                by == blocks_high - 1 - band,
                band < blocks_high,
                height > 0,
                blocks_wide == blocks_for(width as int),
                blocks_high == blocks_for(height as int),
                wide == blocks_wide,
                len == block_len(format),
                row == height - 4 * by - 4 + r,
                row <= height,
                tiles@.len() == blocks_wide,
                forall|bx: int, x: int, y: int|
                    0 <= bx < blocks_wide && 0 <= x < 4 && 0 <= y < 4 ==> #[trigger] pixel_at(tiles@[bx], x, y) == block_pixel(input@, (by * blocks_wide + bx) * len, format, x, y),
                out@.len() == row * width * 4,
                forall|rr: int, col: int, ch: int|
                    0 <= rr < row && 0 <= col < width && 0 <= ch < 4 ==> #[trigger] out@[(rr
                        * width + col) * 4 + ch] == channel(
                        texture_pixel(input@, width, height, format, col, rr),
                        ch,
                    ),
            decreases 4 - r,
        {
            let ghost before = out@;
            push_row(&mut out, &tiles, r as usize, width);
            proof {
                assert((row + 1) * width * 4 == row * width * 4 + 4 * width) by (nonlinear_arith);
                assert forall|rr: int, col: int, ch: int|
                    0 <= rr < row + 1 && 0 <= col < width && 0 <= ch < 4 implies #[trigger] out@[(rr
                    * width + col) * 4 + ch] == channel(
                    texture_pixel(input@, width, height, format, col, rr),
                    ch,
                ) by {
                    if rr < row {
                        assert((rr * width + col) * 4 + ch < row * width * 4) by (nonlinear_arith)
                            requires
                                0 <= rr < row,
                                0 <= col < width,
                                0 <= ch < 4,
                        ;
                        assert(0 <= (rr * width + col) * 4 + ch) by (nonlinear_arith)
                            requires
                                0 <= rr,
                                0 <= col,
                                0 <= width,
                                0 <= ch,
                        ;
                        assert(out@[(rr * width + col) * 4 + ch] == before[(rr * width + col) * 4
                            + ch]);
                    } else {
                        assert((rr * width + col) * 4 + ch == before.len() + 4 * col + ch)
                            by (nonlinear_arith)
                            requires
                                rr == row,
                                before.len() == row * width * 4,
                        ;
                        let k = height - 1 - rr;
                        assert(k / 4 == by && 3 - k % 4 == r);
                    }
                }
            }
            row += 1;
            r += 1;
        }
        band += 1;
    }
    assert(row == height);
    assert(row * width * 4 == width * height * 4) by (nonlinear_arith)
        requires
            row == height,
    ;
    proof {
        assert forall|i: int| 0 <= i < out@.len() implies out@[i] == texture_bytes(
            input@,
            width,
            height,
            format,
        )[i] by {
            let p = i / 4;
            let w = width as int;
            assert(w > 0) by (nonlinear_arith)
                requires
                    0 <= i < w * height * 4,
                    0 <= w,
            ;
            assert(p < w * height) by (nonlinear_arith)
                requires
                    i < w * height * 4,
                    p == i / 4,
            ;
            vstd::arithmetic::div_mod::lemma_fundamental_div_mod(p, w);
            vstd::arithmetic::div_mod::lemma_multiply_divide_lt(p, w, height as int);
            vstd::arithmetic::div_mod::lemma_mod_bound(p, w);
            vstd::arithmetic::div_mod::lemma_div_pos_is_pos(p, w);
            assert(((p / w) * w + p % w) * 4 + i % 4 == i) by (nonlinear_arith)
                requires
                    p == w * (p / w) + p % w,
                    p == i / 4,
            ;
            assert(out@[((p / w) * width + p % w) * 4 + i % 4] == channel(
                texture_pixel(input@, width, height, format, p % w, p / w),
                i % 4,
            ));
        }
        assert(out@ =~= texture_bytes(input@, width, height, format));
    }
    Ok(out)
}

/// The DXT variants that a texture may use.
#[derive(Copy, Clone, Debug, PartialEq, Eq, Structural)]
pub enum DxtVariant {
    Dxt1,
    Dxt5,
}

/// The pixel formats of a texture that this crate can expand.
#[derive(Copy, Clone, Debug, PartialEq, Eq, Structural)]
pub enum TextureFormat {
    Etc(DecodeFormat),
    Dxt(DxtVariant),
}

/// The format that a format code stands for.
pub open spec fn spec_texture_format(code: i32) -> Result<TextureFormat, ParseError> {
    if code == 34 {
        Ok(TextureFormat::Etc(DecodeFormat::EtcRgb4))
    } else if code == 45 {
        Ok(TextureFormat::Etc(DecodeFormat::Etc2Rgb))
    } else if code == 46 {
        Ok(TextureFormat::Etc(DecodeFormat::Etc2Rgba1))
    } else if code == 47 {
        Ok(TextureFormat::Etc(DecodeFormat::Etc2Rgba8))
    } else if code == 10 {
        Ok(TextureFormat::Dxt(DxtVariant::Dxt1))
    } else if code == 12 {
        Ok(TextureFormat::Dxt(DxtVariant::Dxt5))
    } else {
        Err(ParseError::TextureFormatUnsupported { code })
    }
}

/// The format code of a DXT variant.
pub open spec fn dxt_code(variant: DxtVariant) -> i32 {
    match variant {
        DxtVariant::Dxt1 => 10,
        DxtVariant::Dxt5 => 12,
    }
}

/// The number of bytes that the blocks of a DXT image take.
pub open spec fn dxt_input_len(width: u32, height: u32, variant: DxtVariant) -> int {
    (width / 4) * (height / 4) * match variant {
        DxtVariant::Dxt1 => 8int,
        DxtVariant::Dxt5 => 16int,
    }
}

/// The RGBA8 image, rows from the top, that the DXT codec makes of the
/// blocks of an image, flipped vertically; nothing where it fails.
pub uninterp spec fn dxt_rgba(width: u32, height: u32, variant: DxtVariant, data: Seq<u8>) -> Option<
    Seq<u8>,
>;

/// The PNG file that the PNG encoder makes of an RGBA8 image with fast
/// compression; nothing where it fails.
pub uninterp spec fn png_bytes(width: u32, height: u32, rgba: Seq<u8>) -> Option<Seq<u8>>;

/// `DxtDecoder::new`, `DynamicImage::from_decoder`, `flipv`, `into_rgba8` and
/// `into_vec` of the `image` crate, in a row. Trusted: the result is
/// `dxt_rgba` of the arguments. The decoder needs a width that is not zero,
/// sides that are multiples of four, all the blocks of the image, and an
/// image that can be addressed.
#[verifier::external_body]
fn dxt_decode(width: u32, height: u32, variant: DxtVariant, data: &[u8]) -> (r: Option<Vec<u8>>)
    requires
        width > 0,
        width % 4 == 0,
        height % 4 == 0,
        dxt_input_len(width, height, variant) <= data@.len(),
        width * height * 4 <= usize::MAX,
    ensures
        match r {
            Some(image) => dxt_rgba(width, height, variant, data@) == Some(image@),
            None => dxt_rgba(width, height, variant, data@) is None,
        },
{
    let variant = match variant {
        DxtVariant::Dxt1 => image::codecs::dxt::DxtVariant::DXT1,
        DxtVariant::Dxt5 => image::codecs::dxt::DxtVariant::DXT5,
    };
    let decoder = image::codecs::dxt::DxtDecoder::new(data, width, height, variant).ok()?;
    let decoded = image::DynamicImage::from_decoder(decoder).ok()?;
    Some(decoded.flipv().into_rgba8().into_vec())
}

/// `Encoder::new`, `set_compression`, `set_color`, `set_depth`,
/// `write_header` and `write_image_data` of the `png` crate, in a row, for
/// an RGBA image of eight bits a channel under fast compression. Trusted: the
/// result is `png_bytes` of the arguments. The encoder needs as many bytes as
/// the image has.
#[verifier::external_body]
fn png_encode(width: u32, height: u32, rgba: &[u8]) -> (r: Option<Vec<u8>>)
    requires
        rgba@.len() == width * height * 4,
    ensures
        match r {
            Some(file) => png_bytes(width, height, rgba@) == Some(file@),
            None => png_bytes(width, height, rgba@) is None,
        },
{
    let mut file = Vec::new();
    let mut encoder = png::Encoder::new(&mut file, width, height);
    encoder.set_compression(png::Compression::Fast);
    encoder.set_color(png::ColorType::RGBA);
    encoder.set_depth(png::BitDepth::Eight);
    let mut writer = encoder.write_header().ok()?;
    writer.write_image_data(rgba).ok()?;
    drop(writer);
    Some(file)
}

/// What is wrong with the sides or the input of a DXT image, if anything: a
/// width that is zero or no multiple of four, a height that is no multiple
/// of four, an image too large to address, or too few bytes.
pub open spec fn spec_dxt_check(width: u32, height: u32, variant: DxtVariant, len: int) -> Option<
    ParseError,
> {
    if width == 0 || width % 4 != 0 {
        Some(ParseError::TextureFieldMismatch { field: TextureField::Width })
    } else if height % 4 != 0 || width * height * 4 > usize::MAX {
        Some(ParseError::TextureFieldMismatch { field: TextureField::Height })
    } else if dxt_input_len(width, height, variant) > len {
        Some(ParseError::TruncatedInput)
    } else {
        None
    }
}

/// What a decoded DXT image is worth: the image where it has four bytes for
/// every pixel, else the format counts as unsupported.
pub open spec fn spec_finish_dxt(width: u32, height: u32, variant: DxtVariant, decoded: Option<
    Seq<u8>,
>) -> Result<Seq<u8>, ParseError> {
    match decoded {
        Some(image) => if image.len() == width * height * 4 {
            Ok(image)
        } else {
            Err(ParseError::TextureFormatUnsupported { code: dxt_code(variant) })
        },
        None => Err(ParseError::TextureFormatUnsupported { code: dxt_code(variant) }),
    }
}

/// The RGBA8 image that the bytes `s` hold under the given format.
pub open spec fn spec_read_texture(width: u32, height: u32, format: TextureFormat, s: Seq<u8>) -> Result<
    Seq<u8>,
    ParseError,
> {
    match format {
        TextureFormat::Etc(etc) => if texture_input_len(width, height, etc) > s.len() {
            Err(ParseError::TruncatedInput)
        } else {
            Ok(texture_bytes(s, width, height, etc))
        },
        TextureFormat::Dxt(variant) => match spec_dxt_check(width, height, variant, s.len() as int) {
            Some(err) => Err(err),
            None => spec_finish_dxt(width, height, variant, dxt_rgba(width, height, variant, s)),
        },
    }
}

/// Reads a format code.
pub fn texture_format(code: i32) -> (r: Result<TextureFormat, ParseError>)
    ensures
        r == spec_texture_format(code),
{
    match code {
        34 => Ok(TextureFormat::Etc(DecodeFormat::EtcRgb4)),
        45 => Ok(TextureFormat::Etc(DecodeFormat::Etc2Rgb)),
        46 => Ok(TextureFormat::Etc(DecodeFormat::Etc2Rgba1)),
        47 => Ok(TextureFormat::Etc(DecodeFormat::Etc2Rgba8)),
        10 => Ok(TextureFormat::Dxt(DxtVariant::Dxt1)),
        12 => Ok(TextureFormat::Dxt(DxtVariant::Dxt5)),
        _ => Err(ParseError::TextureFormatUnsupported { code }),
    }
}

/// Holds a decoded DXT image against the size of its texture.
pub fn finish_dxt(width: u32, height: u32, variant: DxtVariant, decoded: Option<Vec<u8>>) -> (r:
    Result<Vec<u8>, ParseError>)
    ensures
        match r {
            Ok(image) => decoded is Some && spec_finish_dxt(
                width,
                height,
                variant,
                Some(decoded->Some_0@),
            ) == Ok::<Seq<u8>, ParseError>(image@),
            Err(err) => spec_finish_dxt(
                width,
                height,
                variant,
                match decoded {
                    Some(image) => Some(image@),
                    None => None,
                },
            ) == Err::<Seq<u8>, ParseError>(err),
        },
{
    let code: i32 = match variant {
        DxtVariant::Dxt1 => 10,
        DxtVariant::Dxt5 => 12,
    };
    match decoded {
        Some(image) => {
            assert(0 <= width * height * 4 <= 0xffff_ffff * 0xffff_ffff * 4) by (nonlinear_arith)
                requires
                    0 <= width <= 0xffff_ffff,
                    0 <= height <= 0xffff_ffff,
            ;
            let expected: u128 = width as u128 * height as u128 * 4;
            if image.len() as u128 == expected {
                Ok(image)
            } else {
                Err(ParseError::TextureFormatUnsupported { code })
            }
        },
        None => Err(ParseError::TextureFormatUnsupported { code }),
    }
}

/// Whether a value of at most 2^66 fits a `usize`.
fn fits_usize(v: u128) -> (r: bool)
    ensures
        r == (v <= usize::MAX),
{
    v <= usize::MAX as u128
}

/// Where the pixels of a texture lie when they are not in its object: a
/// path, and a range of the resource that the path names.
#[derive(Debug, PartialEq, Eq)]
pub struct StreamingInfo {
    pub path: String,
    pub offset: u32,
    pub size: u32,
}

/// A streaming reference as plain values.
pub struct StreamingInfoView {
    pub path: Seq<char>,
    pub offset: u32,
    pub size: u32,
}

impl View for StreamingInfo {
    type V = StreamingInfoView;

    open spec fn view(&self) -> StreamingInfoView {
        StreamingInfoView { path: self.path@, offset: self.offset, size: self.size }
    }
}

/// The streaming reference that a `StreamingInfo` struct holds: its `path`
/// as text, and its `offset` and `size`. Each error names what is missing or
/// of another type.
pub open spec fn spec_streaming_info(data: DataView) -> Result<StreamingInfoView, ParseError> {
    match data {
        DataView::GenericStruct { ty_name, fields } => if ty_name != "StreamingInfo"@ {
            Err(ParseError::TextureFieldMismatch { field: TextureField::StreamData })
        } else {
            match spec_field(fields, "path"@) {
                Some(DataView::String(path)) => match spec_field(fields, "offset"@) {
                    Some(DataView::UInt32(offset)) => match spec_field(fields, "size"@) {
                        Some(DataView::UInt32(size)) => Ok(
                            StreamingInfoView { path: utf8_lossy(path), offset, size },
                        ),
                        _ => Err(ParseError::TextureFieldMismatch { field: TextureField::Size }),
                    },
                    _ => Err(ParseError::TextureFieldMismatch { field: TextureField::Offset }),
                },
                _ => Err(ParseError::TextureFieldMismatch { field: TextureField::Path }),
            }
        },
        _ => Err(ParseError::TextureFieldMismatch { field: TextureField::StreamData }),
    }
}

impl StreamingInfo {
    /// Reads a streaming reference from a `StreamingInfo` struct.
    pub fn from_data(data: &Data) -> (r: Result<StreamingInfo, ParseError>)
        ensures
            match r {
                Ok(info) => spec_streaming_info(data@) == Ok::<StreamingInfoView, ParseError>(info@),
                Err(err) => spec_streaming_info(data@) == Err::<StreamingInfoView, ParseError>(err),
            },
    {
        match data {
            Data::GenericStruct { ty_name, fields } => {
                if !str_eq(ty_name.as_str(), "StreamingInfo") {
                    return Err(
                        ParseError::TextureFieldMismatch { field: TextureField::StreamData },
                    );
                }
            },
            _ => {
                return Err(ParseError::TextureFieldMismatch { field: TextureField::StreamData });
            },
        }
        let path = match data.field("path") {
            Some(Data::String(bytes)) => string_from_utf8_lossy(bytes.as_slice()),
            _ => {
                return Err(ParseError::TextureFieldMismatch { field: TextureField::Path });
            },
        };
        let offset = match data.field("offset") {
            Some(Data::UInt32(v)) => *v,
            _ => {
                return Err(ParseError::TextureFieldMismatch { field: TextureField::Offset });
            },
        };
        let size = match data.field("size") {
            Some(Data::UInt32(v)) => *v,
            _ => {
                return Err(ParseError::TextureFieldMismatch { field: TextureField::Size });
            },
        };
        Ok(StreamingInfo { path, offset, size })
    }
}

/// The pixels of a texture: at hand as RGBA8, or still in a resource.
#[derive(Debug, PartialEq, Eq)]
pub enum ImageData {
    Loaded(Vec<u8>),
    Streaming(TextureFormat, StreamingInfo),
}

/// The pixels of a texture as plain values.
pub enum ImageDataView {
    Loaded(Seq<u8>),
    Streaming(TextureFormat, StreamingInfoView),
}

impl View for ImageData {
    type V = ImageDataView;

    open spec fn view(&self) -> ImageDataView {
        match self {
            ImageData::Loaded(pixels) => ImageDataView::Loaded(pixels@),
            ImageData::Streaming(format, info) => ImageDataView::Streaming(*format, info@),
        }
    }
}

/// A texture as plain values.
pub struct Texture2DView {
    pub name: Seq<char>,
    pub width: u32,
    pub height: u32,
    pub image_data: ImageDataView,
}

/// The fields of a `Texture2D` object that this crate reads.
pub struct TextureFields {
    pub name: Seq<char>,
    pub width: u32,
    pub height: u32,
    pub image: Seq<u8>,
    pub format: TextureFormat,
    pub stream: StreamingInfoView,
}

/// A signed side read as an unsigned one.
pub open spec fn spec_side(v: i32) -> u32 {
    if v >= 0 {
        v as u32
    } else {
        (v + 0x1_0000_0000) as u32
    }
}

/// The fields of a `Texture2D` struct: `m_Name` as text, `m_Width` and
/// `m_Height`, the bytes of `image data`, the format that `m_TextureFormat`
/// names, and the streaming reference in `m_StreamData`. Each error names
/// the first field that is missing or of another type; a format code that is
/// not known is an unsupported format.
pub open spec fn spec_texture_fields(data: DataView) -> Result<TextureFields, ParseError> {
    match data {
        DataView::GenericStruct { ty_name, fields } => match spec_field(fields, "m_Name"@) {
            Some(DataView::String(name)) => match spec_field(fields, "m_Width"@) {
                Some(DataView::SInt32(width)) => match spec_field(fields, "m_Height"@) {
                    Some(DataView::SInt32(height)) => match spec_field(fields, "image data"@) {
                        Some(DataView::UInt8Array(image)) => match spec_field(
                            fields,
                            "m_TextureFormat"@,
                        ) {
                            Some(DataView::SInt32(code)) => match spec_texture_format(code) {
                                Err(err) => Err(err),
                                Ok(format) => match spec_field(fields, "m_StreamData"@) {
                                    None => Err(
                                        ParseError::TextureFieldMismatch {
                                            field: TextureField::StreamData,
                                        },
                                    ),
                                    Some(stream) => match spec_streaming_info(stream) {
                                        Err(err) => Err(err),
                                        Ok(stream) => Ok(
                                            TextureFields {
                                                name: utf8_lossy(name),
                                                width: spec_side(width),
                                                height: spec_side(height),
                                                image,
                                                format,
                                                stream,
                                            },
                                        ),
                                    },
                                },
                            },
                            _ => Err(
                                ParseError::TextureFieldMismatch {
                                    field: TextureField::TextureFormat,
                                },
                            ),
                        },
                        _ => Err(
                            ParseError::TextureFieldMismatch { field: TextureField::ImageData },
                        ),
                    },
                    _ => Err(ParseError::TextureFieldMismatch { field: TextureField::Height }),
                },
                _ => Err(ParseError::TextureFieldMismatch { field: TextureField::Width }),
            },
            _ => Err(ParseError::TextureFieldMismatch { field: TextureField::Name }),
        },
        _ => Err(ParseError::TextureFieldMismatch { field: TextureField::Name }),
    }
}

/// The texture that a `Texture2D` struct holds. With an empty streaming
/// path its pixels are expanded from the object; else they are left in the
/// resource that the path names.
pub open spec fn spec_texture(data: DataView) -> Result<Texture2DView, ParseError> {
    match spec_texture_fields(data) {
        Err(err) => Err(err),
        Ok(f) => if f.stream.path.len() == 0 {
            match spec_read_texture(f.width, f.height, f.format, f.image) {
                Err(err) => Err(err),
                Ok(pixels) => Ok(
                    Texture2DView {
                        name: f.name,
                        width: f.width,
                        height: f.height,
                        image_data: ImageDataView::Loaded(pixels),
                    },
                ),
            }
        } else {
            Ok(
                Texture2DView {
                    name: f.name,
                    width: f.width,
                    height: f.height,
                    image_data: ImageDataView::Streaming(f.format, f.stream),
                },
            )
        },
    }
}

/// The position of the first `c` in `s` at or after `from`, or the length of
/// `s` when there is none.
pub open spec fn spec_find(s: Seq<char>, from: int, c: char) -> int
    decreases s.len() - from,
{
    if from < 0 || from >= s.len() {
        s.len() as int
    } else if s[from] == c {
        from
    } else {
        spec_find(s, from + 1, c)
    }
}

/// The bundle and the resource that a streaming path names: the path
/// begins with `archive:/`, the bundle is what follows up to the next `/`,
/// and the resource what follows that up to one more `/` or the end.
pub open spec fn spec_archive_target(path: Seq<char>) -> Option<(Seq<char>, Seq<char>)> {
    if path.len() < 9 || path.subrange(0, 9) != "archive:/"@ {
        None
    } else if spec_find(path, 9, '/') >= path.len() {
        None
    } else {
        Some(
            (
                path.subrange(9, spec_find(path, 9, '/')),
                path.subrange(
                    spec_find(path, 9, '/') + 1,
                    spec_find(path, spec_find(path, 9, '/') + 1, '/'),
                ),
            ),
        )
    }
}

/// The texture after an attempt to fetch its pixels from a container.
///
/// Nothing changes where the pixels are at hand, where the path names no
/// archive, another bundle, or a resource that the container lacks. Else
/// the range of the resource is expanded; a range that does not lie in the
/// resource is truncated input.
pub open spec fn spec_resolve(t: Texture2DView, fs: UnityFsView) -> Result<Texture2DView, ParseError> {
    match t.image_data {
        ImageDataView::Loaded(_) => Ok(t),
        ImageDataView::Streaming(format, info) => match spec_archive_target(info.path) {
            None => Ok(t),
            Some((bundle, resource)) => if fs.main_asset.name != bundle {
                Ok(t)
            } else {
                match spec_resource(fs.resources, resource) {
                    None => Ok(t),
                    Some(bytes) => if info.offset + info.size > bytes.len() {
                        Err(ParseError::TruncatedInput)
                    } else {
                        match spec_read_texture(
                            t.width,
                            t.height,
                            format,
                            bytes.subrange(info.offset as int, info.offset + info.size),
                        ) {
                            Err(err) => Err(err),
                            Ok(pixels) => Ok(
                                Texture2DView {
                                    name: t.name,
                                    width: t.width,
                                    height: t.height,
                                    image_data: ImageDataView::Loaded(pixels),
                                },
                            ),
                        }
                    },
                }
            },
        },
    }
}

/// What an encoded image is worth: the file, or an image that could not be
/// written.
pub open spec fn spec_finish_encode(encoded: Option<Seq<u8>>) -> Result<Option<Seq<u8>>, ParseError> {
    match encoded {
        Some(file) => Ok(Some(file)),
        None => Err(ParseError::TextureFieldMismatch { field: TextureField::ImageData }),
    }
}

/// The PNG file of a texture: nothing while its pixels are not at hand.
pub open spec fn spec_encode(t: Texture2DView) -> Result<Option<Seq<u8>>, ParseError> {
    match t.image_data {
        ImageDataView::Loaded(pixels) => spec_finish_encode(png_bytes(t.width, t.height, pixels)),
        ImageDataView::Streaming(_, _) => Ok(None),
    }
}

/// Finds the first `c` in `s` at or after `from`.
fn find_char(s: &str, from: usize, c: char) -> (r: usize)
    requires
        from <= s@.len(),
    ensures
        r == spec_find(s@, from as int, c),
        from <= r <= s@.len(),
{
    let len = s.unicode_len();
    let mut i = from;
    while i < len && s.get_char(i) != c
        invariant
            from <= i <= len,
            len == s@.len(),
            spec_find(s@, from as int, c) == spec_find(s@, i as int, c),
        decreases len - i,
    {
        i += 1;
    }
    i
}

/// Finds the bundle and the resource that a streaming path names.
fn archive_target<'a>(path: &'a str) -> (r: Option<(&'a str, &'a str)>)
    ensures
        match r {
            Some((bundle, resource)) => spec_archive_target(path@) == Some((bundle@, resource@)),
            None => spec_archive_target(path@) is None,
        },
{
    let len = path.unicode_len();
    if len < 9 || !str_eq(path.substring_char(0, 9), "archive:/") {
        return None;
    }
    let slash = find_char(path, 9, '/');
    if slash >= len {
        return None;
    }
    let end = find_char(path, slash + 1, '/');
    Some((path.substring_char(9, slash), path.substring_char(slash + 1, end)))
}

/// Reads a signed side as an unsigned one.
fn side(v: i32) -> (r: u32)
    ensures
        r == spec_side(v),
{
    if v >= 0 {
        v as u32
    } else {
        (v + 0x4000_0000 + 0x4000_0000) as u32 + 0x8000_0000
    }
}

/// A `Texture2D` object: its name, its size, and its pixels as far as they
/// are at hand.
#[derive(Debug)]
pub struct Texture2D {
    name: String,
    width: u32,
    height: u32,
    image_data: ImageData,
}

impl View for Texture2D {
    type V = Texture2DView;

    closed spec fn view(&self) -> Texture2DView {
        Texture2DView {
            name: self.name@,
            width: self.width,
            height: self.height,
            image_data: self.image_data@,
        }
    }
}

impl Texture2D {
    /// Pixels that are at hand are four bytes for every pixel of the
    /// texture.
    #[verifier::type_invariant]
    spec fn well_formed(&self) -> bool {
        self.image_data matches ImageData::Loaded(pixels) ==> pixels@.len() == self.width
            * self.height * 4
    }

    /// Expands the ETC blocks of an image.
    pub fn read_etc(width: u32, height: u32, format: DecodeFormat, data: &[u8]) -> (r: Result<
        Vec<u8>,
        ParseError,
    >)
        ensures
            match r {
                Ok(image) => spec_read_texture(width, height, TextureFormat::Etc(format), data@)
                    == Ok::<Seq<u8>, ParseError>(image@),
                Err(err) => spec_read_texture(width, height, TextureFormat::Etc(format), data@)
                    == Err::<Seq<u8>, ParseError>(err),
            },
    {
        decode_texture(width, height, format, data)
    }

    /// Expands a DXT image to RGBA8, rows from the top.
    pub fn read_dxt(width: u32, height: u32, variant: DxtVariant, data: &[u8]) -> (r: Result<
        Vec<u8>,
        ParseError,
    >)
        ensures
            match r {
                Ok(image) => spec_read_texture(width, height, TextureFormat::Dxt(variant), data@)
                    == Ok::<Seq<u8>, ParseError>(image@),
                Err(err) => spec_read_texture(width, height, TextureFormat::Dxt(variant), data@)
                    == Err::<Seq<u8>, ParseError>(err),
            },
    {
        if width == 0 || width % 4 != 0 {
            return Err(ParseError::TextureFieldMismatch { field: TextureField::Width });
        }
        assert(0 <= width * height * 4 <= 0xffff_ffff * 0xffff_ffff * 4) by (nonlinear_arith)
            requires
                0 <= width <= 0xffff_ffff,
                0 <= height <= 0xffff_ffff,
        ;
        let size: u128 = width as u128 * height as u128 * 4;
        if height % 4 != 0 || !fits_usize(size) {
            return Err(ParseError::TextureFieldMismatch { field: TextureField::Height });
        }
        let per_block: u128 = match variant {
            DxtVariant::Dxt1 => 8,
            DxtVariant::Dxt5 => 16,
        };
        assert(0 <= (width / 4) * (height / 4) <= 0x4000_0000 * 0x4000_0000) by (nonlinear_arith)
            requires
                0 <= width / 4 <= 0x4000_0000,
                0 <= height / 4 <= 0x4000_0000,
        ;
        let needed: u128 = (width / 4) as u128 * (height / 4) as u128 * per_block;
        if needed > data.len() as u128 {
            return Err(ParseError::TruncatedInput);
        }
        finish_dxt(width, height, variant, dxt_decode(width, height, variant, data))
    }

    /// Expands the blocks of an image to RGBA8, rows from the top.
    pub fn read(width: u32, height: u32, format: TextureFormat, data: &[u8]) -> (r: Result<
        Vec<u8>,
        ParseError,
    >)
        ensures
            match r {
                Ok(image) => spec_read_texture(width, height, format, data@) == Ok::<
                    Seq<u8>,
                    ParseError,
                >(image@) && image@.len() == width * height * 4,
                Err(err) => spec_read_texture(width, height, format, data@) == Err::<
                    Seq<u8>,
                    ParseError,
                >(err),
            },
    {
        match format {
            TextureFormat::Etc(etc) => decode_texture(width, height, etc, data),
            TextureFormat::Dxt(variant) => Texture2D::read_dxt(width, height, variant, data),
        }
    }

    /// A texture whose pixels are expanded from `data`.
    pub fn load(name: String, width: u32, height: u32, format: TextureFormat, data: &[u8]) -> (r:
        Result<Texture2D, ParseError>)
        ensures
            match r {
                Ok(texture) => spec_read_texture(width, height, format, data@) matches Ok(pixels)
                    && texture@ == (Texture2DView {
                    name: name@,
                    width,
                    height,
                    image_data: ImageDataView::Loaded(pixels),
                }),
                Err(err) => spec_read_texture(width, height, format, data@) == Err::<
                    Seq<u8>,
                    ParseError,
                >(err),
            },
    {
        let pixels = Texture2D::read(width, height, format, data)?;
        Ok(Texture2D { name, width, height, image_data: ImageData::Loaded(pixels) })
    }

    /// A texture whose pixels are left in a resource.
    pub fn defer(
        name: String,
        width: u32,
        height: u32,
        format: TextureFormat,
        streaming_info: StreamingInfo,
    ) -> (r: Texture2D)
        ensures
            r@ == (Texture2DView {
                name: name@,
                width,
                height,
                image_data: ImageDataView::Streaming(format, streaming_info@),
            }),
    {
        Texture2D { name, width, height, image_data: ImageData::Streaming(format, streaming_info) }
    }

    /// Reads a texture from a `Texture2D` struct.
    pub fn from_data(data: &Data) -> (r: Result<Texture2D, ParseError>)
        ensures
            match r {
                Ok(texture) => spec_texture(data@) == Ok::<Texture2DView, ParseError>(texture@),
                Err(err) => spec_texture(data@) == Err::<Texture2DView, ParseError>(err),
            },
    {
        match data {
            Data::GenericStruct { ty_name, fields } => {},
            _ => {
                return Err(ParseError::TextureFieldMismatch { field: TextureField::Name });
            },
        }
        let name = match data.field("m_Name") {
            Some(Data::String(bytes)) => string_from_utf8_lossy(bytes.as_slice()),
            _ => {
                return Err(ParseError::TextureFieldMismatch { field: TextureField::Name });
            },
        };
        let width = match data.field("m_Width") {
            Some(Data::SInt32(v)) => side(*v),
            _ => {
                return Err(ParseError::TextureFieldMismatch { field: TextureField::Width });
            },
        };
        let height = match data.field("m_Height") {
            Some(Data::SInt32(v)) => side(*v),
            _ => {
                return Err(ParseError::TextureFieldMismatch { field: TextureField::Height });
            },
        };
        let image = match data.field("image data") {
            Some(Data::UInt8Array(bytes)) => bytes,
            _ => {
                return Err(ParseError::TextureFieldMismatch { field: TextureField::ImageData });
            },
        };
        let format = match data.field("m_TextureFormat") {
            Some(Data::SInt32(code)) => texture_format(*code)?,
            _ => {
                return Err(
                    ParseError::TextureFieldMismatch { field: TextureField::TextureFormat },
                );
            },
        };
        let stream = match data.field("m_StreamData") {
            Some(stream) => StreamingInfo::from_data(stream)?,
            None => {
                return Err(ParseError::TextureFieldMismatch { field: TextureField::StreamData });
            },
        };
        if stream.path.as_str().unicode_len() == 0 {
            Texture2D::load(name, width, height, format, image.as_slice())
        } else {
            Ok(Texture2D::defer(name, width, height, format, stream))
        }
    }

    /// The name of the texture.
    pub fn name(&self) -> (r: String)
        ensures
            r@ == self@.name,
    {
        self.name.clone()
    }

    /// The width of the texture in pixels.
    pub fn width(&self) -> (r: u32)
        ensures
            r == self@.width,
    {
        self.width
    }

    /// The height of the texture in pixels.
    pub fn height(&self) -> (r: u32)
        ensures
            r == self@.height,
    {
        self.height
    }

    /// The pixels as RGBA8, rows from the top, where they are at hand.
    pub fn image_rgba8(&self) -> (r: Option<&[u8]>)
        ensures
            match r {
                Some(pixels) => self@.image_data == ImageDataView::Loaded(pixels@)
                    && pixels@.len() == self@.width * self@.height * 4,
                None => self@.image_data is Streaming,
            },
    {
        proof {
            use_type_invariant(self);
        }
        match &self.image_data {
            ImageData::Loaded(pixels) => Some(pixels.as_slice()),
            _ => None,
        }
    }

    /// What an encoded image is worth.
    pub fn finish_encode(encoded: Option<Vec<u8>>) -> (r: Result<Option<Vec<u8>>, ParseError>)
        ensures
            match r {
                Ok(Some(file)) => encoded is Some && file@ == encoded->Some_0@,
                Ok(None) => false,
                Err(err) => encoded is None && err == (ParseError::TextureFieldMismatch {
                    field: TextureField::ImageData,
                }),
            },
    {
        match encoded {
            Some(file) => Ok(Some(file)),
            None => Err(ParseError::TextureFieldMismatch { field: TextureField::ImageData }),
        }
    }

    /// The texture as a PNG file; nothing while its pixels are not at hand.
    pub fn encode(&self) -> (r: Result<Option<Vec<u8>>, ParseError>)
        ensures
            match r {
                Ok(Some(file)) => spec_encode(self@) == Ok::<Option<Seq<u8>>, ParseError>(
                    Some(file@),
                ),
                Ok(None) => spec_encode(self@) == Ok::<Option<Seq<u8>>, ParseError>(None),
                Err(err) => spec_encode(self@) == Err::<Option<Seq<u8>>, ParseError>(err),
            },
    {
        proof {
            use_type_invariant(self);
        }
        match &self.image_data {
            ImageData::Loaded(pixels) => Texture2D::finish_encode(
                png_encode(self.width, self.height, pixels.as_slice()),
            ),
            _ => Ok(None),
        }
    }

    /// The path of the resource that holds the pixels, while they are not at
    /// hand.
    pub fn asset_dependency(&self) -> (r: Option<String>)
        ensures
            match r {
                Some(path) => self@.image_data matches ImageDataView::Streaming(_, info)
                    && info.path == path@,
                None => self@.image_data is Loaded,
            },
    {
        match &self.image_data {
            ImageData::Streaming(_, info) => Some(info.path.clone()),
            _ => None,
        }
    }

    /// Fetches the pixels from `fs` where the texture waits for a resource
    /// of that container. A texture that fails to resolve stays as it was.
    pub fn try_resolve(&mut self, fs: &UnityFs) -> (r: Result<(), ParseError>)
        ensures
            match r {
                Ok(()) => spec_resolve(old(self)@, fs@) == Ok::<Texture2DView, ParseError>(
                    final(self)@,
                ),
                Err(err) => spec_resolve(old(self)@, fs@) == Err::<Texture2DView, ParseError>(err)
                    && final(self)@ == old(self)@,
            },
    {
        let pixels = match &self.image_data {
            ImageData::Streaming(format, info) => {
                let (bundle, resource) = match archive_target(info.path.as_str()) {
                    Some(target) => target,
                    None => {
                        return Ok(());
                    },
                };
                if !str_eq(fs.name(), bundle) {
                    return Ok(());
                }
                let bytes = match fs.resource(resource) {
                    Some(bytes) => bytes,
                    None => {
                        return Ok(());
                    },
                };
                let end = info.offset as u64 + info.size as u64;
                if end > bytes.len() as u64 {
                    return Err(ParseError::TruncatedInput);
                }
                let range = vstd::slice::slice_subrange(bytes, info.offset as usize, end as usize);
                Texture2D::read(self.width, self.height, *format, range)?
            },
            _ => {
                return Ok(());
            },
        };
        self.image_data = ImageData::Loaded(pixels);
        Ok(())
    }

    /// Fetches the pixels from `fs` as `try_resolve` does, and counts it an
    /// error where they are not at hand afterwards: the resource is missing.
    pub fn resolve(&mut self, fs: &UnityFs) -> (r: Result<(), ParseError>)
        ensures
            match r {
                Ok(()) => spec_resolve(old(self)@, fs@) == Ok::<Texture2DView, ParseError>(
                    final(self)@,
                ) && final(self)@.image_data is Loaded,
                Err(err) => final(self)@ == old(self)@ && match spec_resolve(old(self)@, fs@) {
                    Err(e) => err == e,
                    Ok(t) => t.image_data is Streaming && err
                        == ParseError::StreamingResourceMissing,
                },
            },
    {
        self.try_resolve(fs)?;
        match &self.image_data {
            ImageData::Loaded(_) => Ok(()),
            ImageData::Streaming(_, _) => Err(ParseError::StreamingResourceMissing),
        }
    }
}

} // verus!
