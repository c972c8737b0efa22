//! ETC1 and ETC2 block decoding.
//!
//! A color block is a 64-bit word, read big-endian. It holds a 4x4 tile in
//! one of five modes: individual, differential, T, H or planar. The
//! `Etc2Rgba8` format puts a second word before it that holds the alpha
//! channel of the tile.

use vstd::prelude::*;
use crate::bytes::Endianness;
use crate::bytes::read_u64;
use crate::bytes::u64_at;
use crate::error::ParseError;

verus! {

/// Distances of the T mode, by distance index.
pub const TABLE_59T: [u8; 8] = [3, 6, 11, 16, 23, 32, 41, 64];

/// Distances of the H mode, by distance index.
pub const TABLE_58H: [u8; 8] = [3, 6, 11, 16, 23, 32, 41, 64];

/// Intensity modifiers of the individual and differential modes, by table
/// row and modifier index. Each codeword has two rows.
pub const COMPRESS_PARAMS: [[i32; 4]; 16] = [
    [-8, -2, 2, 8],
    [-8, -2, 2, 8],
    [-17, -5, 5, 17],
    [-17, -5, 5, 17],
    [-29, -9, 9, 29],
    [-29, -9, 9, 29],
    [-42, -13, 13, 42],
    [-42, -13, 13, 42],
    [-60, -18, 18, 60],
    [-60, -18, 18, 60],
    [-80, -24, 24, 80],
    [-80, -24, 24, 80],
    [-106, -33, 33, 106],
    [-106, -33, 33, 106],
    [-183, -47, 47, 183],
    [-183, -47, 47, 183],
];

/// The order in which the two index bits of a pixel name the modifiers.
pub const UNSCRAMBLE: [usize; 4] = [2, 3, 1, 0];

/// The negative half of the alpha modifiers, by table row.
pub const ALPHA_BASE: [[i32; 4]; 16] = [
    [-15, -9, -6, -3],
    [-13, -10, -7, -3],
    [-13, -8, -5, -2],
    [-13, -6, -4, -2],
    [-12, -8, -6, -3],
    [-11, -9, -7, -3],
    [-11, -8, -7, -4],
    [-11, -8, -5, -3],
    [-10, -8, -6, -2],
    [-10, -8, -5, -2],
    [-10, -8, -4, -2],
    [-10, -7, -5, -2],
    [-10, -7, -4, -3],
    [-10, -3, -2, -1],
    [-9, -8, -6, -4],
    [-9, -7, -5, -3],
];

/// A decoded tile: four rows of four RGBA pixels.
pub type Block = [[u8; 16]; 4];

/// One channel of a decoded tile: four rows of four values.
pub type SingleChannelBlock = [[u8; 4]; 4];

/// A color.
#[derive(Copy, Clone, Debug, PartialEq, Eq, Structural)]
pub struct Rgb {
    pub r: u8,
    pub g: u8,
    pub b: u8,
}

/// A pixel.
#[derive(Copy, Clone, Debug, PartialEq, Eq, Structural)]
pub struct Pixel {
    pub r: u8,
    pub g: u8,
    pub b: u8,
    pub a: u8,
}

/// The two modes that paint a tile with four colors.
#[derive(Copy, Clone, Debug, PartialEq, Eq, Structural)]
pub enum Pattern {
    H,
    T,
}

/// The texture formats of the ETC family.
#[derive(Copy, Clone, Debug, PartialEq, Eq, Structural)]
pub enum DecodeFormat {
    EtcRgb4,
    Etc2Rgb,
    Etc2Rgba8,
    Etc2Rgba1,
}

/// The pixel in column `x` of row `y` of a tile.
pub open spec fn pixel_at(tile: Block, x: int, y: int) -> Pixel {
    Pixel {
        r: tile@[y]@[4 * x],
        g: tile@[y]@[4 * x + 1],
        b: tile@[y]@[4 * x + 2],
        a: tile@[y]@[4 * x + 3],
    }
}

/// `v` limited to the range of a byte.
pub open spec fn clamp255(v: int) -> u8 {
    if v < 0 {
        0
    } else if v > 255 {
        255
    } else {
        v as u8
    }
}

/// The bits of `v` under `mask` after a shift to the right by `lo`.
pub open spec fn field(v: u64, lo: u64, mask: u64) -> u64 {
    (v >> lo) & mask
}

/// A masked value is no larger than its mask.
proof fn lemma_mask(a: u64, m: u64)
    by (bit_vector)
    ensures
        a & m <= m,
{
}

/// A masked value is no larger than its mask.
proof fn lemma_mask32(a: u32, m: u32)
    by (bit_vector)
    ensures
        a & m <= m,
{
}

/// Two bits make a number below four.
proof fn lemma_two_bits(a: u64, b: u64)
    by (bit_vector)
    ensures
        ((a & 1) << 1) | (b & 1) <= 3,
        (a & 3) | 1 <= 3,
{
}

/// Reads a bit field.
fn get_field(v: u64, lo: u64, mask: u64) -> (r: u64)
    requires
        lo < 64,
    ensures
        r == field(v, lo, mask),
        r <= mask,
{
    proof {
        lemma_mask(v >> lo, mask);
    }
    (v >> lo) & mask
}

/// The sum of a byte and a modifier, limited to the range of a byte.
pub fn saturating_add_u8_i32(a: u8, b: i32) -> (r: u8)
    ensures
        r == clamp255(a as int + b as int),
{
    if b > 255 {
        255
    } else if b < -255 {
        0
    } else {
        let x: i32 = a as i32 + b;
        if x < 0 {
            0
        } else if x > 0xff {
            0xff
        } else {
            x as u8
        }
    }
}

/// The low three bits of `v` read as a signed number, from -4 to 3.
pub open spec fn signed3(v: u8) -> int {
    if v % 8 >= 4 {
        v % 8 - 8
    } else {
        (v % 8) as int
    }
}

/// The low three bits of `v`, sign-extended to a byte.
pub open spec fn spec_extend3(v: u8) -> u8 {
    if v % 8 >= 4 {
        (v % 8 + 248) as u8
    } else {
        v % 8
    }
}

/// Sign-extends the low three bits of `v` to a byte.
pub fn extend_u8_3bit(v: u8) -> (r: u8)
    ensures
        r == spec_extend3(v),
        r as int == (signed3(v) + 256) % 256,
{
    let low = v % 8;
    if low >= 4 {
        low + 248
    } else {
        low
    }
}

/// The sum of a base color and a sign-extended delta, as a byte that wraps
/// around.
pub open spec fn wrapped_sum(base: u8, delta: u8) -> u8 {
    ((base + spec_extend3(delta)) % 256) as u8
}

/// Adds a sign-extended delta to a base color, wrapping around.
fn add_delta(base: u8, delta: u8) -> (r: u8)
    ensures
        r == wrapped_sum(base, delta),
{
    let extended = extend_u8_3bit(delta);
    ((base as u32 + extended as u32) % 256) as u8
}

/// The word whose 57 payload bits are those of a planar block, moved
/// together: from the low end of `from`, 33 bits, then 8, 2, 7 and 7 bits,
/// with 1, 1, 3 and 1 bits skipped between them.
pub open spec fn spec_unstuff_57(from: u64) -> u64 {
    (field(from, 56, 0x7f) << 57) | (field(from, 48, 0x7f) << 50) | (field(from, 43, 0x3) << 48) | (
    field(from, 34, 0xff) << 40) | (field(from, 0, 0x1_ffff_ffff) << 7)
}

/// The word whose 58 payload bits are those of an H block, moved together:
/// from the low end of `from`, 33 bits, then 16, 2 and 7 bits, with 1, 1
/// and 3 bits skipped between them.
pub open spec fn spec_unstuff_58(from: u64) -> u64 {
    (field(from, 56, 0x7f) << 51) | (field(from, 51, 0x3) << 49) | (field(from, 34, 0xffff) << 33)
        | field(from, 0, 0x1_ffff_ffff)
}

/// The word whose 59 payload bits are those of a T block, moved together:
/// from the low end of `from`, 33 bits, then 24 and 2 bits, with 1 bit
/// skipped before each.
pub open spec fn spec_unstuff_59(from: u64) -> u64 {
    (field(from, 59, 0x3) << 57) | (field(from, 34, 0xff_ffff) << 33) | field(
        from,
        0,
        0x1_ffff_ffff,
    )
}

/// Moves the payload bits of a planar block together.
pub fn unstuff_57(from: u64) -> (r: u64)
    ensures
        r == spec_unstuff_57(from),
{
    let a = get_field(from, 0, 0x1_ffff_ffff);
    let b = get_field(from, 34, 0xff);
    let c = get_field(from, 43, 0x3);
    let d = get_field(from, 48, 0x7f);
    let e = get_field(from, 56, 0x7f);
    (e << 57) | (d << 50) | (c << 48) | (b << 40) | (a << 7)
}

/// Moves the payload bits of an H block together.
pub fn unstuff_58(from: u64) -> (r: u64)
    ensures
        r == spec_unstuff_58(from),
{
    let a = get_field(from, 0, 0x1_ffff_ffff);
    let b = get_field(from, 34, 0xffff);
    let c = get_field(from, 51, 0x3);
    let d = get_field(from, 56, 0x7f);
    (d << 51) | (c << 49) | (b << 33) | a
}

/// Moves the payload bits of a T block together.
pub fn unstuff_59(from: u64) -> (r: u64)
    ensures
        r == spec_unstuff_59(from),
{
    let a = get_field(from, 0, 0x1_ffff_ffff);
    let b = get_field(from, 34, 0xff_ffff);
    let c = get_field(from, 59, 0x3);
    (c << 57) | (b << 33) | a
}

/// A value of `bits` bits made eight bits wide by repeating its high bits
/// below it.
pub open spec fn expand(v: u8, bits: u32) -> u8 {
    ((((v as u32) << ((8 - bits) as u32)) | ((v as u32) >> ((2 * bits - 8) as u32))) & 0xff) as u8
}

/// Makes a value of `bits` bits eight bits wide.
fn expand_bits(v: u8, bits: u32) -> (r: u8)
    requires
        4 <= bits <= 7,
    ensures
        r == expand(v, bits),
{
    let wide: u32 = (((v as u32) << (8 - bits)) | ((v as u32) >> (2 * bits - 8))) & 0xff;
    proof {
        lemma_mask32(((v as u32) << ((8 - bits) as u32)) | ((v as u32) >> ((2 * bits - 8) as u32)), 0xff);
    }
    wide as u8
}

/// A color whose channels have `rb`, `gb` and `bb` bits, made eight bits
/// wide.
pub open spec fn spec_decompress_color(rb: u32, gb: u32, bb: u32, c: Rgb) -> Rgb {
    Rgb { r: expand(c.r, rb), g: expand(c.g, gb), b: expand(c.b, bb) }
}

/// Makes the channels of two colors eight bits wide.
pub fn decompress_color(rb: u32, gb: u32, bb: u32, colors: [Rgb; 2]) -> (r: [Rgb; 2])
    requires
        4 <= rb <= 7,
        4 <= gb <= 7,
        4 <= bb <= 7,
    ensures
        r@[0] == spec_decompress_color(rb, gb, bb, colors@[0]),
        r@[1] == spec_decompress_color(rb, gb, bb, colors@[1]),
{
    [
        Rgb {
            r: expand_bits(colors[0].r, rb),
            g: expand_bits(colors[0].g, gb),
            b: expand_bits(colors[0].b, bb),
        },
        Rgb {
            r: expand_bits(colors[1].r, rb),
            g: expand_bits(colors[1].g, gb),
            b: expand_bits(colors[1].b, bb),
        },
    ]
}

/// A color with `d` added to every channel, limited to the range of a byte.
pub open spec fn shifted(c: Rgb, d: int) -> Rgb {
    Rgb { r: clamp255(c.r + d), g: clamp255(c.g + d), b: clamp255(c.b + d) }
}

/// The distance of a distance index.
pub open spec fn spec_distance(pat: Pattern, dist: u8) -> int {
    match pat {
        Pattern::H => TABLE_58H@[dist as int] as int,
        Pattern::T => TABLE_59T@[dist as int] as int,
    }
}

/// The paint color `i` of a T or H block with base colors `c0` and `c1`. In
/// the T mode: `c0`, `c1 + d`, `c1`, `c1 - d`. In the H mode: `c0 + d`,
/// `c0 - d`, `c1 + d`, `c1 - d`.
pub open spec fn spec_paint(dist: u8, pat: Pattern, c0: Rgb, c1: Rgb, i: int) -> Rgb {
    let d = spec_distance(pat, dist);
    match pat {
        Pattern::H => if i == 0 {
            shifted(c0, d)
        } else if i == 1 {
            shifted(c0, -d)
        } else if i == 2 {
            shifted(c1, d)
        } else {
            shifted(c1, -d)
        },
        Pattern::T => if i == 0 {
            c0
        } else if i == 1 {
            shifted(c1, d)
        } else if i == 2 {
            c1
        } else {
            shifted(c1, -d)
        },
    }
}

/// Adds `d` to every channel of a color.
fn shift_color(c: Rgb, d: i32) -> (r: Rgb)
    ensures
        r == shifted(c, d as int),
{
    Rgb {
        r: saturating_add_u8_i32(c.r, d),
        g: saturating_add_u8_i32(c.g, d),
        b: saturating_add_u8_i32(c.b, d),
    }
}

/// The four paint colors of a T or H block.
pub fn calculate_paint_colors(dist: u8, pat: Pattern, colors: [Rgb; 2]) -> (r: [Rgb; 4])
    requires
        dist < 8,
    ensures
        forall|i: int| 0 <= i < 4 ==> r@[i] == spec_paint(dist, pat, colors@[0], colors@[1], i),
{
    match pat {
        Pattern::H => {
            let v = TABLE_58H[dist as usize] as i32;
            [
                shift_color(colors[0], v),
                shift_color(colors[0], -v),
                shift_color(colors[1], v),
                shift_color(colors[1], -v),
            ]
        },
        Pattern::T => {
            let v = TABLE_59T[dist as usize] as i32;
            [colors[0], shift_color(colors[1], v), colors[1], shift_color(colors[1], -v)]
        },
    }
}

/// The two index bits of pixel `k`, counted by columns: the bit of the upper
/// half, then that of the lower half.
pub open spec fn index_bits(block: u64, k: u64) -> u64 {
    (field(block, (16 + k) as u64, 1) << 1) | field(block, k, 1)
}

/// Reads the two index bits of pixel `k`.
fn pixel_index(block: u64, k: u64) -> (r: usize)
    requires
        k < 16,
    ensures
        r == index_bits(block, k),
        r < 4,
{
    proof {
        lemma_two_bits(block >> ((16 + k) as u64), block >> k);
    }
    let upper = get_field(block, 16 + k, 1);
    let lower = get_field(block, k, 1);
    ((upper << 1) | lower) as usize
}

/// Sets one pixel of a tile.
fn set_pixel(tile: &mut Block, x: usize, y: usize, p: Pixel)
    requires
        x < 4,
        y < 4,
    ensures
        pixel_at(*final(tile), x as int, y as int) == p,
        forall|xx: int, yy: int|
            0 <= xx < 4 && 0 <= yy < 4 && !(xx == x && yy == y) ==> pixel_at(*final(tile), xx, yy)
                == pixel_at(*old(tile), xx, yy),
{
    let mut row = tile[y];
    row[4 * x] = p.r;
    row[4 * x + 1] = p.g;
    row[4 * x + 2] = p.b;
    row[4 * x + 3] = p.a;
    tile[y] = row;
}

/// The upper half of a block: its color data.
pub open spec fn color_data(block: u64) -> u64 {
    field(block, 32, 0xffff_ffff)
}

/// Where the color fields of an unstuffed T or H block begin in its upper
/// half: after the bits of the distance index.
pub open spec fn thumb_shift(pat: Pattern) -> u64 {
    match pat {
        Pattern::H => 2,
        Pattern::T => 3,
    }
}

/// The distance index of an unstuffed T or H block. In the T mode it is the
/// low three bits of the upper half. In the H mode it is the low two bits,
/// with the lowest bit set where the first color, read as twelve bits, is
/// not below the second.
pub open spec fn thumb_dist(block: u64, pat: Pattern) -> u8 {
    match pat {
        Pattern::H => if field(color_data(block), 14, 0xfff) >= field(color_data(block), 2, 0xfff) {
            (field(color_data(block), 0, 3) | 1) as u8
        } else {
            field(color_data(block), 0, 3) as u8
        },
        Pattern::T => field(color_data(block), 0, 7) as u8,
    }
}

/// Base color `which` (0 or 1) of an unstuffed T or H block, four bits a
/// channel.
pub open spec fn thumb_color(block: u64, pat: Pattern, which: int) -> Rgb {
    let s = thumb_shift(pat);
    if which == 0 {
        Rgb {
            r: field(color_data(block), (s + 20) as u64, 0xf) as u8,
            g: field(color_data(block), (s + 16) as u64, 0xf) as u8,
            b: field(color_data(block), (s + 12) as u64, 0xf) as u8,
        }
    } else {
        Rgb {
            r: field(color_data(block), (s + 8) as u64, 0xf) as u8,
            g: field(color_data(block), (s + 4) as u64, 0xf) as u8,
            b: field(color_data(block), s, 0xf) as u8,
        }
    }
}

/// The pixel in column `x` of row `y` of an unstuffed T or H block: the
/// paint color that its two index bits name. With 1-bit alpha, index 2 is
/// transparent.
pub open spec fn thumb_pixel(block: u64, pat: Pattern, alpha: bool, x: int, y: int) -> Pixel {
    let i = index_bits(block, (4 * x + y) as u64);
    let c = spec_paint(
        thumb_dist(block, pat),
        pat,
        spec_decompress_color(4, 4, 4, thumb_color(block, pat, 0)),
        spec_decompress_color(4, 4, 4, thumb_color(block, pat, 1)),
        i as int,
    );
    Pixel {
        r: c.r,
        g: c.g,
        b: c.b,
        a: if alpha && i == 2 {
            0
        } else {
            255
        },
    }
}

/// Color `which` of an unstuffed planar block: 0 for the vertical, 1 for
/// the horizontal color, 2 for the origin. Red and blue have six bits and
/// green seven, made eight bits wide.
pub open spec fn planar_color(block: u64, which: u64) -> Rgb {
    Rgb {
        r: expand(field(block, (20 + 19 * which) as u64, 0x3f) as u8, 6),
        g: expand(field(block, (13 + 19 * which) as u64, 0x7f) as u8, 7),
        b: expand(field(block, (7 + 19 * which) as u64, 0x3f) as u8, 6),
    }
}

/// One channel of the planar pixel in column `x` of row `y`, for the
/// channel values `h`, `v` and `o` of the three colors.
pub open spec fn planar_channel(x: int, y: int, h: u8, v: u8, o: u8) -> u8 {
    clamp255((x * (h - o) + y * (v - o) + 4 * o + 2) / 4)
}

/// The pixel in column `x` of row `y` of an unstuffed planar block.
pub open spec fn planar_pixel(block: u64, x: int, y: int) -> Pixel {
    let v = planar_color(block, 0);
    let h = planar_color(block, 1);
    let o = planar_color(block, 2);
    Pixel {
        r: planar_channel(x, y, h.r, v.r, o.r),
        g: planar_channel(x, y, h.g, v.g, o.g),
        b: planar_channel(x, y, h.b, v.b, o.b),
        a: 255,
    }
}

/// Whether the differential bit of a block is set.
pub open spec fn diff_bit(block: u64) -> bool {
    field(block, 33, 1) == 1
}

/// Whether the flip bit of a block is set.
pub open spec fn flip_bit(block: u64) -> bool {
    field(block, 32, 1) == 1
}

/// The sub-block of the pixel in column `x` of row `y`: the tile is split
/// between rows 1 and 2 where the flip bit is set, else between columns 1
/// and 2.
pub open spec fn spec_subblock(flip: bool, x: int, y: int) -> int {
    if flip {
        if y >= 2 {
            1
        } else {
            0
        }
    } else {
        if x >= 2 {
            1
        } else {
            0
        }
    }
}

/// The five-bit base of the channel whose fields begin at bit `at`.
pub open spec fn diff_base(block: u64, at: u64) -> u8 {
    field(block, (at + 3) as u64, 0x1f) as u8
}

/// The three-bit delta of the channel whose fields begin at bit `at`.
pub open spec fn diff_delta(block: u64, at: u64) -> u8 {
    field(block, at, 7) as u8
}

/// The color of sub-block `sub` in the differential mode: the base color,
/// and for sub-block 1 the base color plus the deltas.
pub open spec fn differential_color(block: u64, sub: int) -> Rgb {
    if sub == 0 {
        Rgb {
            r: expand(diff_base(block, 56), 5),
            g: expand(diff_base(block, 48), 5),
            b: expand(diff_base(block, 40), 5),
        }
    } else {
        Rgb {
            r: expand(wrapped_sum(diff_base(block, 56), diff_delta(block, 56)), 5),
            g: expand(wrapped_sum(diff_base(block, 48), diff_delta(block, 48)), 5),
            b: expand(wrapped_sum(diff_base(block, 40), diff_delta(block, 40)), 5),
        }
    }
}

/// The color of sub-block `sub` in the individual mode.
pub open spec fn individual_color(block: u64, sub: int) -> Rgb {
    if sub == 0 {
        Rgb {
            r: expand(field(block, 60, 0xf) as u8, 4),
            g: expand(field(block, 52, 0xf) as u8, 4),
            b: expand(field(block, 44, 0xf) as u8, 4),
        }
    } else {
        Rgb {
            r: expand(field(block, 56, 0xf) as u8, 4),
            g: expand(field(block, 48, 0xf) as u8, 4),
            b: expand(field(block, 40, 0xf) as u8, 4),
        }
    }
}

/// The table codeword of sub-block `sub`.
pub open spec fn sub_table(block: u64, sub: int) -> u64 {
    if sub == 0 {
        field(block, 37, 7)
    } else {
        field(block, 34, 7)
    }
}

/// The modifier index of pixel `k`, counted by columns.
pub open spec fn modifier_index(block: u64, k: u64) -> int {
    UNSCRAMBLE@[index_bits(block, k) as int] as int
}

/// The color of the sub-block of the pixel in column `x` of row `y`: in the
/// differential mode where the differential bit is set or the format has
/// 1-bit alpha, else in the individual mode.
pub open spec fn diff_color(block: u64, alpha: bool, x: int, y: int) -> Rgb {
    if diff_bit(block) || alpha {
        differential_color(block, spec_subblock(flip_bit(block), x, y))
    } else {
        individual_color(block, spec_subblock(flip_bit(block), x, y))
    }
}

/// The modifier of the pixel in column `x` of row `y`: the entry that the
/// table codeword of its sub-block and its modifier index name. With 1-bit
/// alpha and the differential bit clear, modifier indices 1 and 2 add
/// nothing.
pub open spec fn diff_modifier(block: u64, alpha: bool, x: int, y: int) -> int {
    let i = modifier_index(block, (4 * x + y) as u64);
    if alpha && !diff_bit(block) && (i == 1 || i == 2) {
        0
    } else {
        COMPRESS_PARAMS@[2 * sub_table(block, spec_subblock(flip_bit(block), x, y))]@[i] as int
    }
}

/// The pixel in column `x` of row `y` of a block in the individual or the
/// differential mode: the color of its sub-block with the modifier added to
/// every channel, limited to the range of a byte. With 1-bit alpha and the
/// differential bit clear, modifier index 1 is transparent.
pub open spec fn diff_pixel(block: u64, alpha: bool, x: int, y: int) -> Pixel {
    Pixel {
        r: clamp255(diff_color(block, alpha, x, y).r + diff_modifier(block, alpha, x, y)),
        g: clamp255(diff_color(block, alpha, x, y).g + diff_modifier(block, alpha, x, y)),
        b: clamp255(diff_color(block, alpha, x, y).b + diff_modifier(block, alpha, x, y)),
        a: if alpha && !diff_bit(block) && modifier_index(block, (4 * x + y) as u64) == 1 {
            0
        } else {
            255
        },
    }
}

/// Every channel of a pixel of the individual or the differential mode is
/// its base color plus its modifier, limited to the range from 0 to 255.
pub proof fn lemma_diff_saturates(block: u64, alpha: bool, x: int, y: int)
    ensures
        diff_pixel(block, alpha, x, y).r == clamp255(
            diff_color(block, alpha, x, y).r + diff_modifier(block, alpha, x, y),
        ),
        diff_pixel(block, alpha, x, y).g == clamp255(
            diff_color(block, alpha, x, y).g + diff_modifier(block, alpha, x, y),
        ),
        diff_pixel(block, alpha, x, y).b == clamp255(
            diff_color(block, alpha, x, y).b + diff_modifier(block, alpha, x, y),
        ),
        forall|v: int| 0 <= v <= 255 ==> clamp255(v) == v,
        forall|v: int| v < 0 ==> clamp255(v) == 0,
        forall|v: int| v > 255 ==> clamp255(v) == 255,
{
}

/// Every channel of a planar pixel is the value of the plane at the pixel,
/// limited to the range from 0 to 255.
pub proof fn lemma_planar_clamped(block: u64, x: int, y: int)
    ensures
        0 <= planar_pixel(block, x, y).r <= 255,
        0 <= planar_pixel(block, x, y).g <= 255,
        0 <= planar_pixel(block, x, y).b <= 255,
        planar_pixel(block, x, y).r == clamp255(
            (x * (planar_color(block, 1).r - planar_color(block, 2).r) + y * (planar_color(
                block,
                0,
            ).r - planar_color(block, 2).r) + 4 * planar_color(block, 2).r + 2) / 4,
        ),
        planar_pixel(block, x, y).g == clamp255(
            (x * (planar_color(block, 1).g - planar_color(block, 2).g) + y * (planar_color(
                block,
                0,
            ).g - planar_color(block, 2).g) + 4 * planar_color(block, 2).g + 2) / 4,
        ),
        planar_pixel(block, x, y).b == clamp255(
            (x * (planar_color(block, 1).b - planar_color(block, 2).b) + y * (planar_color(
                block,
                0,
            ).b - planar_color(block, 2).b) + 4 * planar_color(block, 2).b + 2) / 4,
        ),
{
}

/// The modes of a color block.
#[derive(Copy, Clone, Debug, PartialEq, Eq, Structural)]
pub enum ColorMode {
    Individual,
    Differential,
    T,
    H,
    Planar,
}

/// The mode of a color block. Without the differential bit and without
/// 1-bit alpha it is individual. Else the sums of base and delta decide, in
/// this order: red out of range gives T, green H, blue planar; with all
/// three in range it is differential. A sum is out of range where, as a byte
/// that wraps around, it is 32 or more.
pub open spec fn spec_color_mode(block: u64, alpha: bool) -> ColorMode {
    if !diff_bit(block) && !alpha {
        ColorMode::Individual
    } else if wrapped_sum(diff_base(block, 56), diff_delta(block, 56)) >= 32 {
        ColorMode::T
    } else if wrapped_sum(diff_base(block, 48), diff_delta(block, 48)) >= 32 {
        ColorMode::H
    } else if wrapped_sum(diff_base(block, 40), diff_delta(block, 40)) >= 32 {
        ColorMode::Planar
    } else {
        ColorMode::Differential
    }
}

/// The pixel in column `x` of row `y` of a color block.
pub open spec fn color_pixel(block: u64, alpha: bool, x: int, y: int) -> Pixel {
    match spec_color_mode(block, alpha) {
        ColorMode::Individual => diff_pixel(block, false, x, y),
        ColorMode::Differential => diff_pixel(block, alpha, x, y),
        ColorMode::T => thumb_pixel(
            spec_unstuff_59(block),
            Pattern::T,
            alpha && !diff_bit(block),
            x,
            y,
        ),
        ColorMode::H => thumb_pixel(
            spec_unstuff_58(block),
            Pattern::H,
            alpha && !diff_bit(block),
            x,
            y,
        ),
        ColorMode::Planar => planar_pixel(spec_unstuff_57(block), x, y),
    }
}

/// With the differential bit set exactly one of the modes T, H, planar and
/// differential decodes a block, and the first sum of base and delta that
/// is out of range, in the order red, green, blue, decides which.
pub proof fn lemma_mode_ladder(block: u64, alpha: bool)
    requires
        diff_bit(block),
    ensures
        spec_color_mode(block, alpha) != ColorMode::Individual,
        spec_color_mode(block, alpha) == ColorMode::T <==> wrapped_sum(
            diff_base(block, 56),
            diff_delta(block, 56),
        ) >= 32,
        spec_color_mode(block, alpha) == ColorMode::H <==> wrapped_sum(
            diff_base(block, 56),
            diff_delta(block, 56),
        ) < 32 && wrapped_sum(diff_base(block, 48), diff_delta(block, 48)) >= 32,
        spec_color_mode(block, alpha) == ColorMode::Planar <==> wrapped_sum(
            diff_base(block, 56),
            diff_delta(block, 56),
        ) < 32 && wrapped_sum(diff_base(block, 48), diff_delta(block, 48)) < 32 && wrapped_sum(
            diff_base(block, 40),
            diff_delta(block, 40),
        ) >= 32,
        spec_color_mode(block, alpha) == ColorMode::Differential <==> wrapped_sum(
            diff_base(block, 56),
            diff_delta(block, 56),
        ) < 32 && wrapped_sum(diff_base(block, 48), diff_delta(block, 48)) < 32 && wrapped_sum(
            diff_base(block, 40),
            diff_delta(block, 40),
        ) < 32,
{
}

/// A sum of base and delta is out of range exactly where the base plus the
/// signed delta is negative or above 31.
pub proof fn lemma_wrapped_sum(base: u8, delta: u8)
    requires
        base < 32,
    ensures
        wrapped_sum(base, delta) >= 32 <==> (base + signed3(delta) < 0 || base + signed3(delta) > 31),
{
}

/// The alpha modifier of table row `row` (0 to 15) and index `idx`: the
/// four base entries in reverse, then for each of them its negative less
/// one.
pub open spec fn alpha_base_entry(row: int, idx: int) -> int {
    if idx < 4 {
        ALPHA_BASE@[row]@[3 - idx] as int
    } else {
        -(ALPHA_BASE@[row]@[7 - idx] as int) - 1
    }
}

/// The alpha modifier of a table codeword and an index: the entry of row
/// `table % 16`, times `table / 16`.
pub open spec fn alpha_modifier(table: int, idx: int) -> int {
    alpha_base_entry(table % 16, idx) * (table / 16)
}

/// The alpha value in column `x` of row `y` of an alpha block: the base
/// alpha plus the modifier that the pixel's three index bits name, limited
/// to the range of a byte. The indices stand from the high end of the low
/// 48 bits, by columns.
pub open spec fn alpha_value(block: u64, x: int, y: int) -> u8 {
    clamp255(
        field(block, 56, 0xff) + alpha_modifier(
            field(block, 48, 0xff) as int,
            field(block, (45 - 3 * (4 * x + y)) as u64, 7) as int,
        ),
    )
}

/// The pixel in column `x` of row `y` of the tile that a color word, and
/// for `Etc2Rgba8` an alpha word, hold.
pub open spec fn tile_pixel(alpha_word: u64, color_word: u64, format: DecodeFormat, x: int, y: int) -> Pixel {
    match format {
        DecodeFormat::Etc2Rgba8 => Pixel {
            r: color_pixel(color_word, false, x, y).r,
            g: color_pixel(color_word, false, x, y).g,
            b: color_pixel(color_word, false, x, y).b,
            a: alpha_value(alpha_word, x, y),
        },
        DecodeFormat::Etc2Rgba1 => color_pixel(color_word, true, x, y),
        _ => color_pixel(color_word, false, x, y),
    }
}

/// The number of bytes that one block takes.
pub open spec fn block_len(format: DecodeFormat) -> int {
    match format {
        DecodeFormat::Etc2Rgba8 => 16,
        _ => 8,
    }
}

/// The big-endian word at `pos`.
pub open spec fn word_at(s: Seq<u8>, pos: int) -> u64 {
    u64_at(s, pos, Endianness::Big) as u64
}

/// The pixel in column `x` of row `y` of the tile that the block at `pos`
/// holds.
pub open spec fn block_pixel(s: Seq<u8>, pos: int, format: DecodeFormat, x: int, y: int) -> Pixel {
    match format {
        DecodeFormat::Etc2Rgba8 => tile_pixel(word_at(s, pos), word_at(s, pos + 8), format, x, y),
        _ => tile_pixel(0, word_at(s, pos), format, x, y),
    }
}

/// The tile of a block depends on the bytes of the block and on the format
/// alone: two inputs that begin with the same block hold the same tile.
pub proof fn lemma_block_depends_on_its_bytes(
    a: Seq<u8>,
    b: Seq<u8>,
    format: DecodeFormat,
    x: int,
    y: int,
)
    requires
        block_len(format) <= a.len(),
        block_len(format) <= b.len(),
        a.subrange(0, block_len(format)) == b.subrange(0, block_len(format)),
    ensures
        block_pixel(a, 0, format, x, y) == block_pixel(b, 0, format, x, y),
{
    assert forall|i: int| 0 <= i < block_len(format) implies a[i] == b[i] by {
        assert(a.subrange(0, block_len(format))[i] == a[i]);
        assert(b.subrange(0, block_len(format))[i] == b[i]);
    }
}

/// The pixel in column `x` of row `y` of an unstuffed T or H block.
fn thumb_pixel_at(block: u64, paint: &[Rgb; 4], alpha: bool, x: usize, y: usize) -> (r: Pixel)
    requires
        x < 4,
        y < 4,
    ensures
        r == (Pixel {
            r: paint@[index_bits(block, (4 * x + y) as u64) as int].r,
            g: paint@[index_bits(block, (4 * x + y) as u64) as int].g,
            b: paint@[index_bits(block, (4 * x + y) as u64) as int].b,
            a: if alpha && index_bits(block, (4 * x + y) as u64) == 2 {
                0u8
            } else {
                255u8
            },
        }),
{
    let i = pixel_index(block, (4 * x + y) as u64);
    let c = paint[i];
    Pixel {
        r: c.r,
        g: c.g,
        b: c.b,
        a: if alpha && i == 2 {
            0
        } else {
            255
        },
    }
}

/// Decodes an unstuffed T or H block.
pub fn decompress_block_thumb(block: u64, pattern: Pattern, alpha: bool) -> (r: Block)
    ensures
        forall|x: int, y: int|
            0 <= x < 4 && 0 <= y < 4 ==> pixel_at(r, x, y) == thumb_pixel(
                block,
                pattern,
                alpha,
                x,
                y,
            ),
{
    let data = get_field(block, 32, 0xffff_ffff);
    let (dist, shift): (u8, u64) = match pattern {
        Pattern::H => {
            let low = get_field(data, 0, 3);
            proof {
                lemma_two_bits(data >> 0u64, 0);
            }
            if get_field(data, 14, 0xfff) >= get_field(data, 2, 0xfff) {
                ((low | 1) as u8, 2)
            } else {
                (low as u8, 2)
            }
        },
        Pattern::T => (get_field(data, 0, 7) as u8, 3),
    };
    let raw = [
        Rgb {
            r: get_field(data, shift + 20, 0xf) as u8,
            g: get_field(data, shift + 16, 0xf) as u8,
            b: get_field(data, shift + 12, 0xf) as u8,
        },
        Rgb {
            r: get_field(data, shift + 8, 0xf) as u8,
            g: get_field(data, shift + 4, 0xf) as u8,
            b: get_field(data, shift, 0xf) as u8,
        },
    ];
    let colors = decompress_color(4, 4, 4, raw);
    let paint = calculate_paint_colors(dist, pattern, colors);
    let mut tile: Block = [[0u8; 16]; 4];
    let mut x: usize = 0;
    while x < 4
        invariant
            x <= 4,
            forall|i: int|
                0 <= i < 4 ==> paint@[i] == spec_paint(
                    thumb_dist(block, pattern),
                    pattern,
                    spec_decompress_color(4, 4, 4, thumb_color(block, pattern, 0)),
                    spec_decompress_color(4, 4, 4, thumb_color(block, pattern, 1)),
                    i,
                ),
            forall|xx: int, yy: int|
                0 <= xx < x && 0 <= yy < 4 ==> pixel_at(tile, xx, yy) == thumb_pixel(
                    block,
                    pattern,
                    alpha,
                    xx,
                    yy,
                ),
        decreases 4 - x,
    {
        let mut y: usize = 0;
        while y < 4
            invariant
                x < 4,
                y <= 4,
                forall|i: int|
                    0 <= i < 4 ==> paint@[i] == spec_paint(
                        thumb_dist(block, pattern),
                        pattern,
                        spec_decompress_color(4, 4, 4, thumb_color(block, pattern, 0)),
                        spec_decompress_color(4, 4, 4, thumb_color(block, pattern, 1)),
                        i,
                    ),
                forall|xx: int, yy: int|
                    0 <= xx < 4 && 0 <= yy < 4 && (xx < x || (xx == x && yy < y)) ==> pixel_at(
                        tile,
                        xx,
                        yy,
                    ) == thumb_pixel(block, pattern, alpha, xx, yy),
            decreases 4 - y,
        {
            proof {
                lemma_two_bits(block >> ((16 + (4 * x + y)) as u64), block >> ((4 * x + y) as u64));
            }
            let p = thumb_pixel_at(block, &paint, alpha, x, y);
            set_pixel(&mut tile, x, y, p);
            y += 1;
        }
        x += 1;
    }
    tile
}

/// One channel of a planar pixel.
fn planar_channel_at(x: usize, y: usize, h: u8, v: u8, o: u8) -> (r: u8)
    requires
        x < 4,
        y < 4,
    ensures
        r == planar_channel(x as int, y as int, h, v, o),
{
    let dh: i32 = h as i32 - o as i32;
    let dv: i32 = v as i32 - o as i32;
    let tx: i32 = if x == 0 {
        0
    } else if x == 1 {
        dh
    } else if x == 2 {
        2 * dh
    } else {
        3 * dh
    };
    let ty: i32 = if y == 0 {
        0
    } else if y == 1 {
        dv
    } else if y == 2 {
        2 * dv
    } else {
        3 * dv
    };
    let sum: i32 = tx + ty + 4 * (o as i32) + 2;
    let val: i32 = (sum + 4096) / 4 - 1024;
    if val < 0 {
        0
    } else if val > 0xff {
        0xff
    } else {
        val as u8
    }
}

/// Reads color `which` of an unstuffed planar block.
fn planar_color_at(block: u64, which: u64) -> (r: Rgb)
    requires
        which < 3,
    ensures
        r == planar_color(block, which),
{
    Rgb {
        r: expand_bits(get_field(block, 20 + 19 * which, 0x3f) as u8, 6),
        g: expand_bits(get_field(block, 13 + 19 * which, 0x7f) as u8, 7),
        b: expand_bits(get_field(block, 7 + 19 * which, 0x3f) as u8, 6),
    }
}

/// Decodes an unstuffed planar block. Every channel is the plane through
/// the three colors at its pixel, limited to the range of a byte.
pub fn decompress_block_planar(block: u64) -> (r: Block)
    ensures
        forall|x: int, y: int|
            0 <= x < 4 && 0 <= y < 4 ==> pixel_at(r, x, y) == planar_pixel(block, x, y),
{
    let v = planar_color_at(block, 0);
    let h = planar_color_at(block, 1);
    let o = planar_color_at(block, 2);
    let mut tile: Block = [[0u8; 16]; 4];
    let mut x: usize = 0;
    while x < 4
        invariant
            x <= 4,
            v == planar_color(block, 0),
            h == planar_color(block, 1),
            o == planar_color(block, 2),
            forall|xx: int, yy: int|
                0 <= xx < x && 0 <= yy < 4 ==> pixel_at(tile, xx, yy) == planar_pixel(block, xx, yy),
        decreases 4 - x,
    {
        let mut y: usize = 0;
        while y < 4
            invariant
                x < 4,
                y <= 4,
                v == planar_color(block, 0),
                h == planar_color(block, 1),
                o == planar_color(block, 2),
                forall|xx: int, yy: int|
                    0 <= xx < 4 && 0 <= yy < 4 && (xx < x || (xx == x && yy < y)) ==> pixel_at(
                        tile,
                        xx,
                        yy,
                    ) == planar_pixel(block, xx, yy),
            decreases 4 - y,
        {
            let p = Pixel {
                r: planar_channel_at(x, y, h.r, v.r, o.r),
                g: planar_channel_at(x, y, h.g, v.g, o.g),
                b: planar_channel_at(x, y, h.b, v.b, o.b),
                a: 0xff,
            };
            set_pixel(&mut tile, x, y, p);
            y += 1;
        }
        x += 1;
    }
    tile
}

/// Reads the color of a sub-block in the differential mode.
fn differential_color_at(block: u64, sub: usize) -> (r: Rgb)
    requires
        sub < 2,
    ensures
        r == differential_color(block, sub as int),
{
    let base_r = get_field(block, 59, 0x1f) as u8;
    let base_g = get_field(block, 51, 0x1f) as u8;
    let base_b = get_field(block, 43, 0x1f) as u8;
    if sub == 0 {
        Rgb { r: expand_bits(base_r, 5), g: expand_bits(base_g, 5), b: expand_bits(base_b, 5) }
    } else {
        Rgb {
            r: expand_bits(add_delta(base_r, get_field(block, 56, 7) as u8), 5),
            g: expand_bits(add_delta(base_g, get_field(block, 48, 7) as u8), 5),
            b: expand_bits(add_delta(base_b, get_field(block, 40, 7) as u8), 5),
        }
    }
}

/// Reads the color of a sub-block in the individual mode.
fn individual_color_at(block: u64, sub: usize) -> (r: Rgb)
    requires
        sub < 2,
    ensures
        r == individual_color(block, sub as int),
{
    if sub == 0 {
        Rgb {
            r: expand_bits(get_field(block, 60, 0xf) as u8, 4),
            g: expand_bits(get_field(block, 52, 0xf) as u8, 4),
            b: expand_bits(get_field(block, 44, 0xf) as u8, 4),
        }
    } else {
        Rgb {
            r: expand_bits(get_field(block, 56, 0xf) as u8, 4),
            g: expand_bits(get_field(block, 48, 0xf) as u8, 4),
            b: expand_bits(get_field(block, 40, 0xf) as u8, 4),
        }
    }
}

/// The pixel in column `x` of row `y` of a block in the individual or the
/// differential mode.
fn diff_pixel_at(block: u64, alpha: bool, x: usize, y: usize) -> (r: Pixel)
    requires
        x < 4,
        y < 4,
    ensures
        r == diff_pixel(block, alpha, x as int, y as int),
{
    let flip = get_field(block, 32, 1) == 1;
    let diff = get_field(block, 33, 1) == 1;
    let transparent = alpha && !diff;
    let sub: usize = if flip {
        if y >= 2 {
            1
        } else {
            0
        }
    } else {
        if x >= 2 {
            1
        } else {
            0
        }
    };
    let color = if diff || alpha {
        differential_color_at(block, sub)
    } else {
        individual_color_at(block, sub)
    };
    let table = if sub == 0 {
        get_field(block, 37, 7)
    } else {
        get_field(block, 34, 7)
    } as usize;
    let i = UNSCRAMBLE[pixel_index(block, (4 * x + y) as u64)];
    let m: i32 = if transparent && (i == 1 || i == 2) {
        0
    } else {
        COMPRESS_PARAMS[2 * table][i]
    };
    Pixel {
        r: saturating_add_u8_i32(color.r, m),
        g: saturating_add_u8_i32(color.g, m),
        b: saturating_add_u8_i32(color.b, m),
        a: if transparent && i == 1 {
            0
        } else {
            0xff
        },
    }
}

/// Decodes a block in the individual or the differential mode. Every
/// channel is the color of the pixel's sub-block plus its modifier, limited
/// to the range of a byte.
pub fn decompress_block_diff_flip(block: u64, alpha: bool) -> (r: Block)
    ensures
        forall|x: int, y: int|
            0 <= x < 4 && 0 <= y < 4 ==> pixel_at(r, x, y) == diff_pixel(block, alpha, x, y),
{
    let mut tile: Block = [[0u8; 16]; 4];
    let mut x: usize = 0;
    while x < 4
        invariant
            x <= 4,
            forall|xx: int, yy: int|
                0 <= xx < x && 0 <= yy < 4 ==> pixel_at(tile, xx, yy) == diff_pixel(
                    block,
                    alpha,
                    xx,
                    yy,
                ),
        decreases 4 - x,
    {
        let mut y: usize = 0;
        while y < 4
            invariant
                x < 4,
                y <= 4,
                forall|xx: int, yy: int|
                    0 <= xx < 4 && 0 <= yy < 4 && (xx < x || (xx == x && yy < y)) ==> pixel_at(
                        tile,
                        xx,
                        yy,
                    ) == diff_pixel(block, alpha, xx, yy),
            decreases 4 - y,
        {
            let p = diff_pixel_at(block, alpha, x, y);
            set_pixel(&mut tile, x, y, p);
            y += 1;
        }
        x += 1;
    }
    tile
}

/// The mode of a color block.
pub fn color_mode(block: u64, alpha: bool) -> (r: ColorMode)
    ensures
        r == spec_color_mode(block, alpha),
{
    let diff = get_field(block, 33, 1) == 1;
    if !diff && !alpha {
        ColorMode::Individual
    } else if add_delta(get_field(block, 59, 0x1f) as u8, get_field(block, 56, 7) as u8) >= 32 {
        ColorMode::T
    } else if add_delta(get_field(block, 51, 0x1f) as u8, get_field(block, 48, 7) as u8) >= 32 {
        ColorMode::H
    } else if add_delta(get_field(block, 43, 0x1f) as u8, get_field(block, 40, 7) as u8) >= 32 {
        ColorMode::Planar
    } else {
        ColorMode::Differential
    }
}

/// Decodes a color block; `alpha` says whether the format has 1-bit alpha.
/// Exactly one mode decodes the block: the one that `color_mode` names.
pub fn decompress_block_etc2(block: u64, alpha: bool) -> (r: Block)
    ensures
        forall|x: int, y: int|
            0 <= x < 4 && 0 <= y < 4 ==> pixel_at(r, x, y) == color_pixel(block, alpha, x, y),
{
    let diff = get_field(block, 33, 1) == 1;
    match color_mode(block, alpha) {
        ColorMode::Individual => decompress_block_diff_flip(block, false),
        ColorMode::Differential => decompress_block_diff_flip(block, alpha),
        ColorMode::T => decompress_block_thumb(unstuff_59(block), Pattern::T, alpha && !diff),
        ColorMode::H => decompress_block_thumb(unstuff_58(block), Pattern::H, alpha && !diff),
        ColorMode::Planar => decompress_block_planar(unstuff_57(block)),
    }
}

/// Looks up an alpha modifier.
fn alpha_modifier_at(table: u8, idx: u8) -> (r: i32)
    requires
        idx < 8,
    ensures
        r == alpha_modifier(table as int, idx as int),
{
    let row = (table % 16) as usize;
    let base: i32 = if idx < 4 {
        ALPHA_BASE[row][(3 - idx) as usize]
    } else {
        -ALPHA_BASE[row][(7 - idx) as usize] - 1
    };
    let scale = (table / 16) as i32;
    assert(-15 <= base <= 14);
    assert(-240 <= base * scale <= 240) by (nonlinear_arith)
        requires
            -15 <= base <= 14,
            0 <= scale <= 15,
    ;
    base * scale
}

/// Decodes an alpha block.
pub fn decompress_block_alpha(block: u64) -> (r: SingleChannelBlock)
    ensures
        forall|x: int, y: int| 0 <= x < 4 && 0 <= y < 4 ==> r@[y]@[x] == alpha_value(block, x, y),
{
    let alpha = get_field(block, 56, 0xff) as u8;
    let table = get_field(block, 48, 0xff) as u8;
    let mut tile: SingleChannelBlock = [[0u8; 4]; 4];
    let mut x: usize = 0;
    while x < 4
        invariant
            x <= 4,
            alpha == field(block, 56, 0xff),
            table == field(block, 48, 0xff),
            forall|xx: int, yy: int|
                0 <= xx < x && 0 <= yy < 4 ==> tile@[yy]@[xx] == alpha_value(block, xx, yy),
        decreases 4 - x,
    {
        let mut y: usize = 0;
        while y < 4
            invariant
                x < 4,
                y <= 4,
                alpha == field(block, 56, 0xff),
                table == field(block, 48, 0xff),
                forall|xx: int, yy: int|
                    0 <= xx < 4 && 0 <= yy < 4 && (xx < x || (xx == x && yy < y)) ==> tile@[yy]@[xx]
                        == alpha_value(block, xx, yy),
            decreases 4 - y,
        {
            let idx = get_field(block, (45 - 3 * (4 * x + y)) as u64, 7) as u8;
            let value = saturating_add_u8_i32(alpha, alpha_modifier_at(table, idx));
            let mut row = tile[y];
            row[x] = value;
            tile[y] = row;
            y += 1;
        }
        x += 1;
    }
    tile
}

/// Puts an alpha channel into a color tile.
pub fn combine_color_alpha(color: Block, alpha: SingleChannelBlock) -> (r: Block)
    ensures
        forall|x: int, y: int|
            0 <= x < 4 && 0 <= y < 4 ==> pixel_at(r, x, y) == (Pixel {
                r: pixel_at(color, x, y).r,
                g: pixel_at(color, x, y).g,
                b: pixel_at(color, x, y).b,
                a: alpha@[y]@[x],
            }),
{
    let mut tile = color;
    let mut y: usize = 0;
    while y < 4
        invariant
            y <= 4,
            forall|xx: int, yy: int|
                0 <= xx < 4 && yy < y && 0 <= yy < 4 ==> pixel_at(tile, xx, yy) == (Pixel {
                    r: pixel_at(color, xx, yy).r,
                    g: pixel_at(color, xx, yy).g,
                    b: pixel_at(color, xx, yy).b,
                    a: alpha@[yy]@[xx],
                }),
            forall|xx: int, yy: int|
                0 <= xx < 4 && y <= yy < 4 ==> pixel_at(tile, xx, yy) == pixel_at(color, xx, yy),
        decreases 4 - y,
    {
        let mut x: usize = 0;
        while x < 4
            invariant
                y < 4,
                x <= 4,
                forall|xx: int, yy: int|
                    0 <= xx < 4 && 0 <= yy < 4 && (yy < y || (yy == y && xx < x)) ==> pixel_at(
                        tile,
                        xx,
                        yy,
                    ) == (Pixel {
                        r: pixel_at(color, xx, yy).r,
                        g: pixel_at(color, xx, yy).g,
                        b: pixel_at(color, xx, yy).b,
                        a: alpha@[yy]@[xx],
                    }),
                forall|xx: int, yy: int|
                    0 <= xx < 4 && 0 <= yy < 4 && !(yy < y || (yy == y && xx < x)) ==> pixel_at(
                        tile,
                        xx,
                        yy,
                    ) == pixel_at(color, xx, yy),
            decreases 4 - x,
        {
            let row = tile[y];
            let p = Pixel { r: row[4 * x], g: row[4 * x + 1], b: row[4 * x + 2], a: alpha[y][x] };
            set_pixel(&mut tile, x, y, p);
            x += 1;
        }
        y += 1;
    }
    tile
}

/// Reads the big-endian word at `pos`.
fn read_word(input: &[u8], pos: usize) -> (r: u64)
    requires
        pos + 8 <= input@.len(),
    ensures
        r == word_at(input@, pos as int),
{
    read_u64(input, pos, Endianness::Big).unwrap().0
}

/// Decodes the block at `pos` of `input`, which holds all of it.
pub fn decode_block_within(input: &[u8], pos: usize, format: DecodeFormat) -> (tile: Block)
    requires
        pos + block_len(format) <= input@.len(),
    ensures
        forall|x: int, y: int|
            0 <= x < 4 && 0 <= y < 4 ==> pixel_at(tile, x, y) == block_pixel(
                input@,
                pos as int,
                format,
                x,
                y,
            ),
{
    match format {
        DecodeFormat::Etc2Rgba8 => {
            assert(pos + 16 <= input.len());
            let alpha = decompress_block_alpha(read_word(input, pos));
            let color = decompress_block_etc2(read_word(input, pos + 8), false);
            combine_color_alpha(color, alpha)
        },
        DecodeFormat::Etc2Rgba1 => decompress_block_etc2(read_word(input, pos), true),
        _ => decompress_block_etc2(read_word(input, pos), false),
    }
}

/// Decodes the block at `pos` of `input`: for `Etc2Rgba8` an alpha word and
/// a color word, else a color word, each big-endian. Fails where the input
/// ends before the block does.
pub fn decode_block_at(input: &[u8], pos: usize, format: DecodeFormat) -> (r: Result<
    Block,
    ParseError,
>)
    ensures
        match r {
            Ok(tile) => pos + block_len(format) <= input@.len() && forall|x: int, y: int|
                0 <= x < 4 && 0 <= y < 4 ==> pixel_at(tile, x, y) == block_pixel(
                    input@,
                    pos as int,
                    format,
                    x,
                    y,
                ),
            Err(err) => err == ParseError::TruncatedInput && pos + block_len(format) > input@.len(),
        },
{
    let len: usize = match format {
        DecodeFormat::Etc2Rgba8 => 16,
        _ => 8,
    };
    if pos > input.len() || input.len() - pos < len {
        Err(ParseError::TruncatedInput)
    } else {
        Ok(decode_block_within(input, pos, format))
    }
}

/// Decodes the block at the start of `input` into a tile of four rows of
/// four RGBA pixels. The tile depends on the bytes of the block and on the
/// format alone.
pub fn decode_single_block(input: &[u8], format: DecodeFormat) -> (r: Result<Block, ParseError>)
    ensures
        match r {
            Ok(tile) => block_len(format) <= input@.len() && forall|x: int, y: int|
                0 <= x < 4 && 0 <= y < 4 ==> pixel_at(tile, x, y) == block_pixel(
                    input@,
                    0,
                    format,
                    x,
                    y,
                ),
            Err(err) => err == ParseError::TruncatedInput && block_len(format) > input@.len(),
        },
{
    decode_block_at(input, 0, format)
}

} // verus!
