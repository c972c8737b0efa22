use unityfs::error::ParseError;
use unityfs::etc::calculate_paint_colors;
use unityfs::etc::color_mode;
use unityfs::etc::combine_color_alpha;
use unityfs::etc::decode_block_at;
use unityfs::etc::decode_single_block;
use unityfs::etc::decompress_block_alpha;
use unityfs::etc::decompress_block_diff_flip;
use unityfs::etc::decompress_block_etc2;
use unityfs::etc::decompress_block_planar;
use unityfs::etc::decompress_block_thumb;
use unityfs::etc::decompress_color;
use unityfs::etc::extend_u8_3bit;
use unityfs::etc::saturating_add_u8_i32;
use unityfs::etc::unstuff_57;
use unityfs::etc::unstuff_58;
use unityfs::etc::unstuff_59;
use unityfs::etc::Block;
use unityfs::etc::ColorMode;
use unityfs::etc::DecodeFormat;
use unityfs::etc::Pattern;
use unityfs::etc::Rgb;

fn decode(word: u64, format: DecodeFormat) -> Block {
    decode_single_block(&word.to_be_bytes(), format).unwrap()
}

fn decode_with_alpha(alpha: u64, color: u64) -> Block {
    let mut bytes = alpha.to_be_bytes().to_vec();
    bytes.extend_from_slice(&color.to_be_bytes());
    decode_single_block(&bytes, DecodeFormat::Etc2Rgba8).unwrap()
}


#[test]
fn all_zero_block_is_the_darkest_grey_of_the_first_table() {
    let word: u64 = 0x0;
    assert_eq!(color_mode(word, false), ColorMode::Individual);
    let expected: Block = [
        [2, 2, 2, 255, 2, 2, 2, 255, 2, 2, 2, 255, 2, 2, 2, 255],
        [2, 2, 2, 255, 2, 2, 2, 255, 2, 2, 2, 255, 2, 2, 2, 255],
        [2, 2, 2, 255, 2, 2, 2, 255, 2, 2, 2, 255, 2, 2, 2, 255],
        [2, 2, 2, 255, 2, 2, 2, 255, 2, 2, 2, 255, 2, 2, 2, 255],
    ];
    assert_eq!(decode(word, DecodeFormat::EtcRgb4), expected);
    assert_eq!(decompress_block_etc2(word, false), expected);
}


#[test]
fn individual_mode_adds_the_modifier_of_each_sub_block() {
    let word: u64 = 0xf0800f3c0000ffff;
    assert_eq!(color_mode(word, false), ColorMode::Individual);
    let expected: Block = [
        [255, 153, 17, 255, 255, 153, 17, 255, 183, 183, 255, 255, 183, 183, 255, 255],
        [255, 153, 17, 255, 255, 153, 17, 255, 183, 183, 255, 255, 183, 183, 255, 255],
        [255, 153, 17, 255, 255, 153, 17, 255, 183, 183, 255, 255, 183, 183, 255, 255],
        [255, 153, 17, 255, 255, 153, 17, 255, 183, 183, 255, 255, 183, 183, 255, 255],
    ];
    assert_eq!(decode(word, DecodeFormat::EtcRgb4), expected);
    assert_eq!(decompress_block_etc2(word, false), expected);
}


#[test]
fn differential_mode_clamps_the_sum_of_color_and_modifier() {
    let word: u64 = 0x8156f80300000000;
    assert_eq!(color_mode(word, false), ColorMode::Differential);
    let expected: Block = [
        [134, 84, 255, 255, 134, 84, 255, 255, 134, 84, 255, 255, 134, 84, 255, 255],
        [134, 84, 255, 255, 134, 84, 255, 255, 134, 84, 255, 255, 134, 84, 255, 255],
        [142, 68, 255, 255, 142, 68, 255, 255, 142, 68, 255, 255, 142, 68, 255, 255],
        [142, 68, 255, 255, 142, 68, 255, 255, 142, 68, 255, 255, 142, 68, 255, 255],
    ];
    assert_eq!(decode(word, DecodeFormat::Etc2Rgb), expected);
    assert_eq!(decompress_block_etc2(word, false), expected);
}


#[test]
fn t_mode_paints_with_the_first_color_and_three_shades_of_the_second() {
    let word: u64 = 0xfb00008600120011;
    assert_eq!(color_mode(word, false), ColorMode::T);
    let expected: Block = [
        [11, 11, 147, 255, 0, 0, 125, 255, 255, 0, 0, 255, 255, 0, 0, 255],
        [0, 0, 136, 255, 255, 0, 0, 255, 255, 0, 0, 255, 255, 0, 0, 255],
        [255, 0, 0, 255, 255, 0, 0, 255, 255, 0, 0, 255, 255, 0, 0, 255],
        [255, 0, 0, 255, 255, 0, 0, 255, 255, 0, 0, 255, 255, 0, 0, 255],
    ];
    assert_eq!(decode(word, DecodeFormat::Etc2Rgb), expected);
    assert_eq!(decompress_block_etc2(word, false), expected);
}


#[test]
fn h_mode_paints_with_two_shades_of_each_color() {
    let word: u64 = 0x804010680208001;
    assert_eq!(color_mode(word, false), ColorMode::H);
    let expected: Block = [
        [1, 0, 0, 255, 33, 16, 16, 255, 33, 16, 16, 255, 33, 16, 16, 255],
        [33, 16, 16, 255, 16, 50, 16, 255, 33, 16, 16, 255, 33, 16, 16, 255],
        [33, 16, 16, 255, 33, 16, 16, 255, 33, 16, 16, 255, 33, 16, 16, 255],
        [33, 16, 16, 255, 33, 16, 16, 255, 33, 16, 16, 255, 0, 18, 0, 255],
    ];
    assert_eq!(decode(word, DecodeFormat::Etc2Rgb), expected);
    assert_eq!(decompress_block_etc2(word, false), expected);
}


#[test]
fn planar_mode_follows_the_plane_through_three_colors() {
    let word: u64 = 0x47f00001fc0;
    assert_eq!(color_mode(word, false), ColorMode::Planar);
    let expected: Block = [
        [0, 0, 0, 255, 64, 0, 0, 255, 128, 0, 0, 255, 191, 0, 0, 255],
        [0, 64, 0, 255, 64, 64, 0, 255, 128, 64, 0, 255, 191, 64, 0, 255],
        [0, 128, 0, 255, 64, 128, 0, 255, 128, 128, 0, 255, 191, 128, 0, 255],
        [0, 191, 0, 255, 64, 191, 0, 255, 128, 191, 0, 255, 191, 191, 0, 255],
    ];
    assert_eq!(decode(word, DecodeFormat::Etc2Rgb), expected);
    assert_eq!(decompress_block_etc2(word, false), expected);
}


#[test]
fn one_bit_alpha_makes_the_second_modifier_transparent() {
    let word: u64 = 0x60005;
    assert_eq!(color_mode(word, true), ColorMode::Differential);
    let expected: Block = [
        [8, 8, 8, 255, 0, 0, 0, 255, 0, 0, 0, 255, 0, 0, 0, 255],
        [0, 0, 0, 0, 0, 0, 0, 255, 0, 0, 0, 255, 0, 0, 0, 255],
        [0, 0, 0, 255, 0, 0, 0, 255, 0, 0, 0, 255, 0, 0, 0, 255],
        [0, 0, 0, 255, 0, 0, 0, 255, 0, 0, 0, 255, 0, 0, 0, 255],
    ];
    assert_eq!(decode(word, DecodeFormat::Etc2Rgba1), expected);
    assert_eq!(decompress_block_etc2(word, true), expected);
}


#[test]
fn one_bit_alpha_makes_the_third_paint_color_transparent() {
    let word: u64 = 0xfb00008400120011;
    assert_eq!(color_mode(word, true), ColorMode::T);
    let expected: Block = [
        [11, 11, 147, 255, 0, 0, 125, 255, 255, 0, 0, 255, 255, 0, 0, 255],
        [0, 0, 136, 0, 255, 0, 0, 255, 255, 0, 0, 255, 255, 0, 0, 255],
        [255, 0, 0, 255, 255, 0, 0, 255, 255, 0, 0, 255, 255, 0, 0, 255],
        [255, 0, 0, 255, 255, 0, 0, 255, 255, 0, 0, 255, 255, 0, 0, 255],
    ];
    assert_eq!(decode(word, DecodeFormat::Etc2Rgba1), expected);
    assert_eq!(decompress_block_etc2(word, true), expected);
}


#[test]
fn alpha_block_adds_the_modifier_that_each_index_names() {
    let alpha: u64 = 0x6413ec0000000000;
    let expected: Block = [
        [2, 2, 2, 112, 2, 2, 2, 98, 2, 2, 2, 98, 2, 2, 2, 98],
        [2, 2, 2, 87, 2, 2, 2, 98, 2, 2, 2, 98, 2, 2, 2, 98],
        [2, 2, 2, 98, 2, 2, 2, 98, 2, 2, 2, 98, 2, 2, 2, 98],
        [2, 2, 2, 98, 2, 2, 2, 98, 2, 2, 2, 98, 2, 2, 2, 98],
    ];
    assert_eq!(decode_with_alpha(alpha, 0), expected);
    let channel = decompress_block_alpha(alpha);
    for y in 0..4 {
        for x in 0..4 {
            assert_eq!(channel[y][x], expected[y][4 * x + 3]);
        }
    }
}


#[test]
fn alpha_modifiers_grow_with_the_high_half_of_the_table_byte() {
    let alpha: u64 = 0xfa23ec0000000000;
    let expected: Block = [
        [2, 2, 2, 255, 2, 2, 2, 246, 2, 2, 2, 246, 2, 2, 2, 246],
        [2, 2, 2, 224, 2, 2, 2, 246, 2, 2, 2, 246, 2, 2, 2, 246],
        [2, 2, 2, 246, 2, 2, 2, 246, 2, 2, 2, 246, 2, 2, 2, 246],
        [2, 2, 2, 246, 2, 2, 2, 246, 2, 2, 2, 246, 2, 2, 2, 246],
    ];
    assert_eq!(decode_with_alpha(alpha, 0), expected);
    let channel = decompress_block_alpha(alpha);
    for y in 0..4 {
        for x in 0..4 {
            assert_eq!(channel[y][x], expected[y][4 * x + 3]);
        }
    }
}


#[test]
fn alpha_tables_below_sixteen_leave_the_base_alpha() {
    let alpha: u64 = 0x4d0fec0000000000;
    let expected: Block = [
        [2, 2, 2, 77, 2, 2, 2, 77, 2, 2, 2, 77, 2, 2, 2, 77],
        [2, 2, 2, 77, 2, 2, 2, 77, 2, 2, 2, 77, 2, 2, 2, 77],
        [2, 2, 2, 77, 2, 2, 2, 77, 2, 2, 2, 77, 2, 2, 2, 77],
        [2, 2, 2, 77, 2, 2, 2, 77, 2, 2, 2, 77, 2, 2, 2, 77],
    ];
    assert_eq!(decode_with_alpha(alpha, 0), expected);
    let channel = decompress_block_alpha(alpha);
    for y in 0..4 {
        for x in 0..4 {
            assert_eq!(channel[y][x], expected[y][4 * x + 3]);
        }
    }
}


#[test]
fn alpha_indices_stand_by_columns_from_the_high_end() {
    let alpha: u64 = 0xc8ff123456789abc;
    let expected: Block = [
        [2, 2, 2, 155, 2, 2, 2, 95, 2, 2, 2, 65, 2, 2, 2, 255],
        [2, 2, 2, 230, 2, 2, 2, 125, 2, 2, 2, 255, 2, 2, 2, 95],
        [2, 2, 2, 230, 2, 2, 2, 95, 2, 2, 2, 125, 2, 2, 2, 255],
        [2, 2, 2, 65, 2, 2, 2, 255, 2, 2, 2, 125, 2, 2, 2, 230],
    ];
    assert_eq!(decode_with_alpha(alpha, 0), expected);
    let channel = decompress_block_alpha(alpha);
    for y in 0..4 {
        for x in 0..4 {
            assert_eq!(channel[y][x], expected[y][4 * x + 3]);
        }
    }
}


struct Vector {
    word: u64,
    one_bit_alpha: bool,
    mode: ColorMode,
    tile: Block,
}

fn vectors() -> Vec<Vector> {
    vec![
        Vector {
            word: 0x6edd3a249018775a,
            one_bit_alpha: false,
            mode: ColorMode::Individual,
            tile: [
                [107, 226, 56, 255, 85, 204, 34, 255, 255, 238, 187, 255, 221, 204, 153, 255],
                [119, 238, 68, 255, 107, 226, 56, 255, 255, 238, 187, 255, 255, 238, 187, 255],
                [107, 226, 56, 255, 119, 238, 68, 255, 255, 238, 187, 255, 255, 238, 187, 255],
                [85, 204, 34, 255, 107, 226, 56, 255, 243, 226, 175, 255, 233, 216, 165, 255],
            ],
        },
        Vector {
            word: 0x8687b18d8ce14c8b,
            one_bit_alpha: false,
            mode: ColorMode::Individual,
            tile: [
                [76, 76, 127, 255, 154, 154, 205, 255, 154, 154, 205, 255, 154, 154, 205, 255],
                [196, 196, 247, 255, 118, 118, 169, 255, 154, 154, 205, 255, 154, 154, 205, 255],
                [115, 132, 30, 255, 89, 106, 4, 255, 60, 77, 0, 255, 144, 161, 59, 255],
                [144, 161, 59, 255, 60, 77, 0, 255, 60, 77, 0, 255, 89, 106, 4, 255],
            ],
        },
        Vector {
            word: 0xcb674d999253f6b7,
            one_bit_alpha: false,
            mode: ColorMode::Individual,
            tile: [
                [144, 42, 8, 255, 144, 42, 8, 255, 222, 120, 86, 255, 144, 42, 8, 255],
                [144, 42, 8, 255, 255, 162, 128, 255, 144, 42, 8, 255, 255, 162, 128, 255],
                [255, 225, 255, 255, 154, 86, 188, 255, 255, 225, 255, 255, 255, 225, 255, 255],
                [220, 152, 254, 255, 255, 225, 255, 255, 220, 152, 254, 255, 81, 13, 115, 255],
            ],
        },
        Vector {
            word: 0x2d38de7c3bec5519,
            one_bit_alpha: false,
            mode: ColorMode::Individual,
            tile: [
                [76, 93, 255, 255, 76, 93, 255, 255, 38, 0, 55, 255, 38, 0, 55, 255],
                [47, 64, 234, 255, 21, 38, 208, 255, 174, 89, 191, 255, 174, 89, 191, 255],
                [21, 38, 208, 255, 21, 38, 208, 255, 255, 255, 255, 255, 255, 255, 255, 255],
                [0, 9, 179, 255, 21, 38, 208, 255, 174, 89, 191, 255, 255, 183, 255, 255],
            ],
        },
        Vector {
            word: 0xa93f99f2e8a4987e,
            one_bit_alpha: false,
            mode: ColorMode::Differential,
            tile: [
                [220, 104, 203, 255, 255, 240, 255, 255, 199, 67, 183, 255, 241, 109, 225, 255],
                [255, 240, 255, 255, 0, 0, 0, 255, 199, 67, 183, 255, 163, 31, 147, 255],
                [0, 0, 0, 255, 255, 240, 255, 255, 199, 67, 183, 255, 163, 31, 147, 255],
                [255, 240, 255, 255, 126, 10, 109, 255, 121, 0, 105, 255, 121, 0, 105, 255],
            ],
        },
        Vector {
            word: 0xe2c532cf9756a036,
            one_bit_alpha: false,
            mode: ColorMode::Differential,
            tile: [
                [255, 231, 82, 255, 125, 92, 0, 255, 198, 165, 16, 255, 198, 165, 16, 255],
                [125, 92, 0, 255, 255, 255, 155, 255, 198, 165, 16, 255, 255, 255, 155, 255],
                [205, 131, 24, 255, 234, 160, 53, 255, 234, 160, 53, 255, 255, 186, 79, 255],
                [255, 186, 79, 255, 255, 186, 79, 255, 255, 186, 79, 255, 205, 131, 24, 255],
            ],
        },
        Vector {
            word: 0x7f5364eb98d00ba6,
            one_bit_alpha: false,
            mode: ColorMode::Differential,
            tile: [
                [170, 129, 146, 255, 76, 35, 52, 255, 255, 255, 255, 255, 76, 35, 52, 255],
                [255, 255, 255, 255, 255, 255, 255, 255, 255, 255, 255, 255, 170, 129, 146, 255],
                [144, 136, 95, 255, 106, 98, 57, 255, 124, 116, 75, 255, 124, 116, 75, 255],
                [124, 116, 75, 255, 86, 78, 37, 255, 86, 78, 37, 255, 106, 98, 57, 255],
            ],
        },
        Vector {
            word: 0xb0084f7de574f6d,
            one_bit_alpha: false,
            mode: ColorMode::Differential,
            tile: [
                [0, 0, 0, 255, 0, 0, 85, 255, 191, 183, 255, 255, 0, 0, 85, 255],
                [0, 0, 85, 255, 191, 183, 255, 255, 0, 0, 0, 255, 55, 47, 179, 255],
                [0, 0, 19, 255, 0, 0, 19, 255, 0, 0, 19, 255, 0, 0, 19, 255],
                [113, 80, 179, 255, 57, 24, 123, 255, 0, 0, 19, 255, 9, 0, 75, 255],
            ],
        },
        Vector {
            word: 0xfbc17bff601f4696,
            one_bit_alpha: false,
            mode: ColorMode::T,
            tile: [
                [119, 187, 255, 255, 55, 123, 191, 255, 255, 204, 17, 255, 255, 204, 17, 255],
                [55, 123, 191, 255, 255, 204, 17, 255, 183, 251, 255, 255, 119, 187, 255, 255],
                [55, 123, 191, 255, 255, 204, 17, 255, 183, 251, 255, 255, 55, 123, 191, 255],
                [119, 187, 255, 255, 183, 251, 255, 255, 255, 204, 17, 255, 255, 204, 17, 255],
            ],
        },
        Vector {
            word: 0x7286e92584e9cb7,
            one_bit_alpha: false,
            mode: ColorMode::T,
            tile: [
                [105, 241, 156, 255, 105, 241, 156, 255, 51, 34, 136, 255, 99, 235, 150, 255],
                [99, 235, 150, 255, 105, 241, 156, 255, 51, 34, 136, 255, 51, 34, 136, 255],
                [99, 235, 150, 255, 102, 238, 153, 255, 105, 241, 156, 255, 102, 238, 153, 255],
                [102, 238, 153, 255, 105, 241, 156, 255, 99, 235, 150, 255, 105, 241, 156, 255],
            ],
        },
        Vector {
            word: 0xc7450763c375d47,
            one_bit_alpha: false,
            mode: ColorMode::T,
            tile: [
                [74, 0, 108, 255, 85, 0, 119, 255, 96, 11, 130, 255, 74, 0, 108, 255],
                [74, 0, 108, 255, 85, 0, 119, 255, 68, 119, 68, 255, 85, 0, 119, 255],
                [74, 0, 108, 255, 96, 11, 130, 255, 74, 0, 108, 255, 96, 11, 130, 255],
                [68, 119, 68, 255, 68, 119, 68, 255, 74, 0, 108, 255, 68, 119, 68, 255],
            ],
        },
        Vector {
            word: 0x4c711fe703b43bf,
            one_bit_alpha: false,
            mode: ColorMode::T,
            tile: [
                [0, 0, 214, 255, 0, 0, 214, 255, 58, 58, 255, 255, 17, 17, 255, 255],
                [0, 0, 214, 255, 0, 0, 214, 255, 58, 58, 255, 255, 17, 17, 255, 255],
                [58, 58, 255, 255, 0, 204, 119, 255, 0, 204, 119, 255, 0, 0, 214, 255],
                [0, 0, 214, 255, 58, 58, 255, 255, 0, 204, 119, 255, 0, 204, 119, 255],
            ],
        },
        Vector {
            word: 0x2a052b0728ed59cc,
            one_bit_alpha: false,
            mode: ColorMode::H,
            tile: [
                [101, 118, 16, 255, 101, 84, 50, 255, 69, 52, 18, 255, 69, 52, 18, 255],
                [101, 84, 50, 255, 101, 118, 16, 255, 101, 84, 50, 255, 101, 118, 16, 255],
                [69, 86, 0, 255, 69, 86, 0, 255, 101, 84, 50, 255, 69, 52, 18, 255],
                [69, 86, 0, 255, 69, 86, 0, 255, 69, 86, 0, 255, 101, 84, 50, 255],
            ],
        },
        Vector {
            word: 0x83f950925b6322e7,
            one_bit_alpha: false,
            mode: ColorMode::H,
            tile: [
                [167, 14, 31, 255, 3, 122, 173, 255, 173, 20, 37, 255, 173, 20, 37, 255],
                [167, 14, 31, 255, 167, 14, 31, 255, 167, 14, 31, 255, 0, 116, 167, 255],
                [0, 116, 167, 255, 167, 14, 31, 255, 3, 122, 173, 255, 173, 20, 37, 255],
                [3, 122, 173, 255, 0, 116, 167, 255, 173, 20, 37, 255, 3, 122, 173, 255],
            ],
        },
        Vector {
            word: 0x6a14d8c74e8e8ead,
            one_bit_alpha: false,
            mode: ColorMode::H,
            tile: [
                [205, 69, 1, 255, 237, 101, 33, 255, 237, 101, 33, 255, 237, 101, 33, 255],
                [203, 33, 152, 255, 205, 69, 1, 255, 171, 1, 120, 255, 237, 101, 33, 255],
                [171, 1, 120, 255, 237, 101, 33, 255, 171, 1, 120, 255, 203, 33, 152, 255],
                [171, 1, 120, 255, 171, 1, 120, 255, 171, 1, 120, 255, 205, 69, 1, 255],
            ],
        },
        Vector {
            word: 0x7af35d876317b74b,
            one_bit_alpha: false,
            mode: ColorMode::H,
            tile: [
                [171, 171, 0, 255, 203, 203, 16, 255, 171, 171, 0, 255, 239, 69, 86, 255],
                [171, 171, 0, 255, 255, 101, 118, 255, 171, 171, 0, 255, 171, 171, 0, 255],
                [203, 203, 16, 255, 239, 69, 86, 255, 239, 69, 86, 255, 203, 203, 16, 255],
                [239, 69, 86, 255, 255, 101, 118, 255, 255, 101, 118, 255, 239, 69, 86, 255],
            ],
        },
        Vector {
            word: 0xb8c0041ff7877661,
            one_bit_alpha: false,
            mode: ColorMode::Planar,
            tile: [
                [113, 64, 0, 255, 100, 110, 49, 255, 87, 156, 98, 255, 73, 201, 146, 255],
                [145, 93, 34, 255, 131, 139, 82, 255, 118, 184, 131, 255, 105, 230, 180, 255],
                [176, 122, 67, 255, 163, 167, 116, 255, 150, 213, 165, 255, 136, 255, 213, 255],
                [208, 150, 101, 255, 194, 196, 149, 255, 181, 242, 198, 255, 168, 255, 247, 255],
            ],
        },
        Vector {
            word: 0x3b4304f30d49b725,
            one_bit_alpha: false,
            mode: ColorMode::Planar,
            tile: [
                [117, 195, 134, 255, 146, 149, 142, 255, 174, 104, 150, 255, 203, 58, 158, 255],
                [101, 193, 138, 255, 129, 147, 146, 255, 158, 101, 154, 255, 186, 55, 162, 255],
                [85, 190, 142, 255, 113, 144, 150, 255, 142, 99, 158, 255, 170, 53, 166, 255],
                [68, 188, 146, 255, 97, 142, 154, 255, 125, 96, 162, 255, 154, 50, 170, 255],
            ],
        },
        Vector {
            word: 0x77020e631e0beb22,
            one_bit_alpha: false,
            mode: ColorMode::Planar,
            tile: [
                [239, 131, 48, 255, 229, 106, 37, 255, 219, 81, 26, 255, 209, 55, 15, 255],
                [211, 120, 71, 255, 201, 95, 60, 255, 191, 70, 49, 255, 181, 45, 38, 255],
                [182, 110, 93, 255, 172, 84, 82, 255, 162, 59, 71, 255, 152, 34, 60, 255],
                [154, 99, 116, 255, 144, 74, 105, 255, 134, 48, 94, 255, 124, 23, 83, 255],
            ],
        },
        Vector {
            word: 0xb24ff26b98c1ef29,
            one_bit_alpha: false,
            mode: ColorMode::Planar,
            tile: [
                [101, 78, 211, 255, 130, 97, 183, 255, 158, 116, 154, 255, 187, 134, 126, 255],
                [91, 89, 200, 255, 119, 107, 171, 255, 148, 126, 143, 255, 176, 145, 114, 255],
                [81, 99, 189, 255, 109, 118, 160, 255, 138, 137, 132, 255, 166, 155, 103, 255],
                [70, 110, 177, 255, 99, 128, 149, 255, 127, 147, 120, 255, 156, 166, 92, 255],
            ],
        },
        Vector {
            word: 0x30aabd6a51c15b84,
            one_bit_alpha: true,
            mode: ColorMode::Differential,
            tile: [
                [36, 160, 176, 255, 62, 186, 202, 255, 20, 160, 136, 255, 20, 160, 136, 255],
                [62, 186, 202, 255, 62, 186, 202, 255, 78, 218, 194, 255, 58, 198, 174, 255],
                [91, 215, 231, 255, 36, 160, 176, 255, 58, 198, 174, 255, 20, 160, 136, 255],
                [62, 186, 202, 255, 7, 131, 147, 255, 78, 218, 194, 255, 58, 198, 174, 255],
            ],
        },
        Vector {
            word: 0x982997dd66c872c,
            one_bit_alpha: true,
            mode: ColorMode::Differential,
            tile: [
                [8, 132, 156, 255, 8, 132, 156, 255, 50, 174, 198, 255, 8, 132, 156, 0],
                [8, 132, 156, 255, 0, 90, 114, 255, 0, 90, 114, 255, 8, 132, 156, 255],
                [0, 0, 0, 255, 16, 148, 165, 0, 0, 0, 0, 255, 16, 148, 165, 0],
                [0, 0, 0, 255, 16, 148, 165, 255, 16, 148, 165, 255, 0, 0, 0, 255],
            ],
        },
        Vector {
            word: 0xf4087ee6fc03cef,
            one_bit_alpha: true,
            mode: ColorMode::Differential,
            tile: [
                [191, 249, 255, 255, 55, 113, 179, 255, 0, 53, 110, 255, 42, 108, 165, 255],
                [191, 249, 255, 255, 191, 249, 255, 255, 0, 53, 110, 255, 0, 24, 81, 255],
                [191, 249, 255, 255, 0, 0, 0, 255, 0, 24, 81, 255, 0, 53, 110, 255],
                [191, 249, 255, 255, 0, 0, 0, 255, 0, 24, 81, 255, 13, 79, 136, 255],
            ],
        },
        Vector {
            word: 0xbc8fd199f3e26b23,
            one_bit_alpha: true,
            mode: ColorMode::Differential,
            tile: [
                [249, 200, 255, 255, 189, 140, 214, 255, 129, 80, 154, 255, 189, 140, 214, 0],
                [129, 80, 154, 255, 129, 80, 154, 255, 129, 80, 154, 255, 129, 80, 154, 255],
                [156, 132, 222, 255, 156, 132, 222, 0, 156, 132, 222, 255, 50, 26, 116, 255],
                [156, 132, 222, 255, 156, 132, 222, 0, 255, 238, 255, 255, 156, 132, 222, 0],
            ],
        },
        Vector {
            word: 0xebffd23eab2ccc48,
            one_bit_alpha: true,
            mode: ColorMode::T,
            tile: [
                [119, 255, 255, 255, 119, 255, 255, 255, 221, 34, 51, 255, 119, 255, 255, 255],
                [119, 255, 255, 255, 221, 34, 51, 255, 221, 34, 51, 255, 221, 34, 51, 255],
                [221, 34, 51, 255, 255, 75, 92, 255, 255, 75, 92, 255, 255, 75, 92, 255],
                [180, 0, 10, 255, 119, 255, 255, 255, 180, 0, 10, 255, 180, 0, 10, 255],
            ],
        },
        Vector {
            word: 0x15f3a3ad17ccaabc,
            one_bit_alpha: true,
            mode: ColorMode::T,
            tile: [
                [153, 255, 51, 255, 234, 115, 234, 255, 170, 51, 170, 0, 170, 51, 170, 0],
                [153, 255, 51, 255, 234, 115, 234, 255, 106, 0, 106, 255, 234, 115, 234, 255],
                [106, 0, 106, 255, 170, 51, 170, 0, 170, 51, 170, 0, 153, 255, 51, 255],
                [106, 0, 106, 255, 106, 0, 106, 255, 234, 115, 234, 255, 234, 115, 234, 255],
            ],
        },
        Vector {
            word: 0xfb73360a10f5893d,
            one_bit_alpha: true,
            mode: ColorMode::T,
            tile: [
                [28, 79, 0, 255, 28, 79, 0, 255, 74, 125, 23, 255, 51, 102, 0, 255],
                [255, 119, 51, 255, 28, 79, 0, 255, 255, 119, 51, 255, 255, 119, 51, 255],
                [28, 79, 0, 255, 51, 102, 0, 255, 255, 119, 51, 255, 255, 119, 51, 255],
                [74, 125, 23, 255, 51, 102, 0, 255, 74, 125, 23, 255, 74, 125, 23, 255],
            ],
        },
        Vector {
            word: 0x4e8e84538532cc0,
            one_bit_alpha: true,
            mode: ColorMode::T,
            tile: [
                [238, 136, 68, 0, 238, 136, 68, 0, 0, 238, 136, 255, 238, 136, 68, 0],
                [238, 136, 68, 0, 0, 238, 136, 255, 0, 238, 136, 255, 222, 120, 52, 255],
                [0, 238, 136, 255, 222, 120, 52, 255, 254, 152, 84, 255, 0, 238, 136, 255],
                [0, 238, 136, 255, 254, 152, 84, 255, 222, 120, 52, 255, 0, 238, 136, 255],
            ],
        },
        Vector {
            word: 0x34fa20930e426a6f,
            one_bit_alpha: true,
            mode: ColorMode::H,
            tile: [
                [96, 147, 198, 255, 108, 159, 210, 255, 108, 159, 210, 255, 108, 159, 210, 255],
                [62, 11, 28, 255, 96, 147, 198, 255, 62, 11, 28, 255, 96, 147, 198, 255],
                [96, 147, 198, 255, 62, 11, 28, 255, 74, 23, 40, 255, 96, 147, 198, 255],
                [96, 147, 198, 255, 108, 159, 210, 255, 62, 11, 28, 255, 108, 159, 210, 255],
            ],
        },
        Vector {
            word: 0x8b070745bab0e0b5,
            one_bit_alpha: true,
            mode: ColorMode::H,
            tile: [
                [1, 86, 86, 255, 0, 222, 120, 255, 33, 118, 118, 255, 16, 254, 152, 0],
                [33, 118, 118, 255, 0, 222, 120, 255, 16, 254, 152, 0, 0, 222, 120, 255],
                [1, 86, 86, 255, 33, 118, 118, 255, 33, 118, 118, 255, 1, 86, 86, 255],
                [33, 118, 118, 255, 0, 222, 120, 255, 16, 254, 152, 0, 0, 222, 120, 255],
            ],
        },
        Vector {
            word: 0xd6f92b20ad0a40e6,
            one_bit_alpha: true,
            mode: ColorMode::H,
            tile: [
                [176, 227, 176, 255, 176, 227, 176, 255, 91, 108, 74, 0, 176, 227, 176, 255],
                [79, 96, 62, 255, 164, 215, 164, 255, 176, 227, 176, 255, 91, 108, 74, 0],
                [164, 215, 164, 255, 164, 215, 164, 255, 91, 108, 74, 0, 164, 215, 164, 255],
                [91, 108, 74, 0, 164, 215, 164, 255, 91, 108, 74, 0, 91, 108, 74, 0],
            ],
        },
        Vector {
            word: 0x4a1ccf336b0757a1,
            one_bit_alpha: true,
            mode: ColorMode::H,
            tile: [
                [147, 232, 96, 255, 159, 91, 159, 255, 147, 232, 96, 255, 147, 79, 147, 255],
                [159, 244, 108, 255, 147, 79, 147, 255, 147, 232, 96, 255, 159, 244, 108, 255],
                [159, 244, 108, 255, 159, 91, 159, 255, 147, 79, 147, 255, 147, 232, 96, 255],
                [159, 91, 159, 255, 147, 79, 147, 255, 159, 244, 108, 255, 159, 91, 159, 255],
            ],
        },
        Vector {
            word: 0x9f32f239e441d9f0,
            one_bit_alpha: true,
            mode: ColorMode::Planar,
            tile: [
                [60, 179, 81, 255, 74, 192, 69, 255, 89, 204, 57, 255, 103, 217, 44, 255],
                [59, 186, 110, 255, 73, 199, 97, 255, 88, 211, 85, 255, 102, 224, 73, 255],
                [58, 193, 138, 255, 72, 206, 126, 255, 87, 218, 114, 255, 101, 231, 101, 255],
                [57, 200, 167, 255, 71, 213, 154, 255, 86, 225, 142, 255, 100, 238, 130, 255],
            ],
        },
        Vector {
            word: 0x3b3a0c7b2b6e9208,
            one_bit_alpha: true,
            mode: ColorMode::Planar,
            tile: [
                [117, 187, 32, 255, 150, 151, 70, 255, 182, 115, 107, 255, 215, 78, 145, 255],
                [141, 177, 32, 255, 173, 140, 70, 255, 206, 104, 107, 255, 238, 68, 145, 255],
                [164, 166, 32, 255, 197, 130, 70, 255, 229, 94, 107, 255, 255, 57, 145, 255],
                [188, 156, 32, 255, 220, 119, 70, 255, 253, 83, 107, 255, 255, 47, 145, 255],
            ],
        },
        Vector {
            word: 0xe5540dceaa49a80f,
            one_bit_alpha: true,
            mode: ColorMode::Planar,
            tile: [
                [203, 213, 44, 255, 191, 203, 42, 255, 179, 192, 40, 255, 166, 182, 38, 255],
                [165, 176, 48, 255, 153, 165, 46, 255, 141, 155, 44, 255, 129, 144, 42, 255],
                [128, 139, 52, 255, 115, 128, 50, 255, 103, 118, 48, 255, 91, 107, 46, 255],
                [90, 101, 56, 255, 78, 91, 54, 255, 65, 80, 52, 255, 53, 70, 50, 255],
            ],
        },
        Vector {
            word: 0xbc4a1c9c9d7a3914,
            one_bit_alpha: true,
            mode: ColorMode::Planar,
            tile: [
                [121, 74, 101, 255, 105, 95, 123, 255, 89, 116, 146, 255, 72, 136, 168, 255],
                [108, 106, 96, 255, 92, 127, 118, 255, 76, 147, 141, 255, 59, 168, 163, 255],
                [95, 138, 91, 255, 79, 158, 113, 255, 63, 179, 136, 255, 46, 200, 158, 255],
                [82, 169, 86, 255, 66, 190, 108, 255, 50, 211, 131, 255, 33, 232, 153, 255],
            ],
        },
    ]
}

#[test]
fn blocks_of_every_mode_decode_to_their_known_tiles() {
    for v in vectors() {
        assert_eq!(color_mode(v.word, v.one_bit_alpha), v.mode, "mode of {:#x}", v.word);
        let format = if v.one_bit_alpha { DecodeFormat::Etc2Rgba1 } else { DecodeFormat::Etc2Rgb };
        assert_eq!(decode(v.word, format), v.tile, "tile of {:#x}", v.word);
    }
}

#[test]
fn etc1_blocks_decode_as_etc2_blocks_without_alpha() {
    for v in vectors() {
        if !v.one_bit_alpha {
            assert_eq!(decode(v.word, DecodeFormat::EtcRgb4), v.tile);
        }
    }
}

#[test]
fn decoding_twice_gives_the_same_tile() {
    for v in vectors() {
        let format = if v.one_bit_alpha { DecodeFormat::Etc2Rgba1 } else { DecodeFormat::Etc2Rgb };
        assert_eq!(decode(v.word, format), decode(v.word, format));
    }
}


#[test]
fn blocks_with_an_alpha_word_decode_to_their_known_tiles() {
    let cases: Vec<(u64, u64, Block)> = vec![
        (
            0xea392d922420382c,
            0xec15992002f813d,
            [
                [82, 150, 150, 219, 88, 156, 156, 219, 88, 156, 156, 219, 102, 204, 17, 237],
                [85, 153, 153, 204, 82, 150, 150, 228, 102, 204, 17, 228, 102, 204, 17, 228],
                [82, 150, 150, 204, 102, 204, 17, 237, 102, 204, 17, 228, 102, 204, 17, 246],
                [82, 150, 150, 219, 102, 204, 17, 237, 102, 204, 17, 204, 88, 156, 156, 237],
            ],
        ),
        (
            0xb66a6dd928ae49c8,
            0x9dab1d1fe5f125b7,
            [
                [148, 165, 16, 122, 148, 165, 16, 188, 148, 165, 16, 200, 158, 175, 26, 188],
                [164, 181, 32, 122, 148, 165, 16, 188, 158, 175, 26, 122, 148, 165, 16, 236],
                [255, 255, 183, 122, 85, 151, 0, 200, 0, 15, 0, 188, 85, 151, 0, 158],
                [179, 245, 47, 200, 0, 15, 0, 170, 179, 245, 47, 188, 85, 151, 0, 170],
            ],
        ),
        (
            0x202883750fcfa264,
            0x8c9a761b635aff0b,
            [
                [148, 164, 123, 34, 138, 154, 113, 16, 132, 148, 107, 46, 148, 164, 123, 20],
                [132, 148, 107, 28, 142, 158, 117, 34, 132, 148, 107, 12, 132, 148, 107, 20],
                [140, 206, 132, 46, 74, 140, 66, 20, 213, 255, 205, 50, 1, 67, 0, 34],
                [1, 67, 0, 50, 140, 206, 132, 50, 213, 255, 205, 16, 213, 255, 205, 34],
            ],
        ),
        (
            0xfbae53f3633c082b,
            0x17b68bf27c959dfc,
            [
                [0, 134, 93, 171, 0, 0, 0, 191, 68, 225, 225, 191, 0, 105, 105, 255],
                [63, 228, 187, 255, 199, 255, 255, 255, 26, 183, 183, 255, 0, 147, 147, 211],
                [0, 0, 0, 255, 199, 255, 255, 255, 0, 105, 105, 211, 0, 147, 147, 255],
                [199, 255, 255, 255, 0, 0, 0, 161, 0, 105, 105, 211, 68, 225, 225, 161],
            ],
        ),
        (
            0xf3e64790895923ff,
            0xe86379350e26fe3e,
            [
                [243, 107, 124, 131, 255, 119, 136, 187, 243, 107, 124, 131, 255, 119, 136, 145],
                [221, 85, 102, 145, 221, 85, 102, 131, 221, 85, 102, 255, 255, 119, 136, 255],
                [56, 0, 73, 255, 160, 75, 177, 145, 56, 0, 73, 131, 216, 131, 233, 255],
                [216, 131, 233, 145, 160, 75, 177, 145, 56, 0, 73, 131, 216, 131, 233, 255],
            ],
        ),
        (
            0xaf175582ecf099d8,
            0xe2c6e757e941694d,
            [
                [202, 169, 202, 167, 240, 207, 240, 170, 202, 169, 202, 185, 240, 207, 240, 177],
                [240, 207, 240, 179, 240, 207, 240, 164, 240, 207, 240, 177, 202, 169, 202, 185],
                [255, 255, 255, 164, 167, 101, 142, 179, 255, 205, 246, 170, 167, 101, 142, 164],
                [255, 255, 255, 172, 255, 205, 246, 177, 167, 101, 142, 170, 223, 157, 198, 172],
            ],
        ),
    ];
    for (alpha, color, tile) in cases {
        assert_eq!(decode_with_alpha(alpha, color), tile, "tile of {:#x} {:#x}", alpha, color);
        let combined = combine_color_alpha(decompress_block_etc2(color, false), decompress_block_alpha(alpha));
        assert_eq!(combined, tile);
    }
}


#[test]
fn unstuffing_moves_the_payload_bits_together() {
    let cases: Vec<(u64, u64, u64, u64)> = vec![
        (0x1c886dd60c8195d6, 0x3821750640caeb00, 0xe236ea0c8195d6, 0x64436ea0c8195d6),
        (0xd26632403a0c45ab, 0xa59a901d0622d580, 0x29119203a0c45ab, 0x53319203a0c45ab),
        (0x5f6527aba58ca75b, 0xbf94ead2c653ad80, 0x2f893d5a58ca75b, 0x7b293d5a58ca75b),
        (0xd5031c208d53cc88, 0xaa0f0846a9e64400, 0x2a98e108d53cc88, 0x4818e108d53cc88),
        (0x0, 0x0, 0x0, 0x0),
        (0xffffffffffffffff, 0xffffffffffffff80, 0x3ffffffffffffff, 0x7ffffffffffffff),
    ];
    for (word, p, h, t) in cases {
        assert_eq!(unstuff_57(word), p);
        assert_eq!(unstuff_58(word), h);
        assert_eq!(unstuff_59(word), t);
    }
}

#[test]
fn sign_extension_reads_three_bits() {
    let expected: [u8; 8] = [0, 1, 2, 3, 252, 253, 254, 255];
    for v in 0..=255u8 {
        assert_eq!(extend_u8_3bit(v), expected[(v % 8) as usize]);
    }
}

#[test]
fn saturating_add_stays_in_a_byte() {
    assert_eq!(saturating_add_u8_i32(250, 10), 255);
    assert_eq!(saturating_add_u8_i32(250, 5), 255);
    assert_eq!(saturating_add_u8_i32(250, 4), 254);
    assert_eq!(saturating_add_u8_i32(3, -4), 0);
    assert_eq!(saturating_add_u8_i32(3, -3), 0);
    assert_eq!(saturating_add_u8_i32(3, -2), 1);
    assert_eq!(saturating_add_u8_i32(0, i32::MAX), 255);
    assert_eq!(saturating_add_u8_i32(255, i32::MAX), 255);
    assert_eq!(saturating_add_u8_i32(255, i32::MIN), 0);
    assert_eq!(saturating_add_u8_i32(100, 0), 100);
    for a in 0..=255u8 {
        for b in -300..=300i32 {
            let sum = a as i32 + b;
            let clamped = if sum < 0 { 0 } else if sum > 255 { 255 } else { sum };
            assert_eq!(saturating_add_u8_i32(a, b) as i32, clamped);
        }
    }
}

#[test]
fn colors_widen_by_repeating_their_high_bits() {
    let colors = [Rgb { r: 0xf, g: 0x8, b: 0x1 }, Rgb { r: 0, g: 0x7, b: 0xa }];
    assert_eq!(
        decompress_color(4, 4, 4, colors),
        [Rgb { r: 0xff, g: 0x88, b: 0x11 }, Rgb { r: 0, g: 0x77, b: 0xaa }]
    );
    let colors = [Rgb { r: 31, g: 127, b: 63 }, Rgb { r: 16, g: 64, b: 32 }];
    assert_eq!(
        decompress_color(5, 7, 6, colors),
        [Rgb { r: 255, g: 255, b: 255 }, Rgb { r: 132, g: 129, b: 130 }]
    );
}

#[test]
fn paint_colors_of_the_t_mode() {
    let colors = [Rgb { r: 10, g: 20, b: 30 }, Rgb { r: 250, g: 128, b: 2 }];
    assert_eq!(
        calculate_paint_colors(1, Pattern::T, colors),
        [
            Rgb { r: 10, g: 20, b: 30 },
            Rgb { r: 255, g: 134, b: 8 },
            Rgb { r: 250, g: 128, b: 2 },
            Rgb { r: 244, g: 122, b: 0 },
        ]
    );
}

#[test]
fn paint_colors_of_the_h_mode() {
    let colors = [Rgb { r: 10, g: 20, b: 30 }, Rgb { r: 250, g: 128, b: 2 }];
    assert_eq!(
        calculate_paint_colors(7, Pattern::H, colors),
        [
            Rgb { r: 74, g: 84, b: 94 },
            Rgb { r: 0, g: 0, b: 0 },
            Rgb { r: 255, g: 192, b: 66 },
            Rgb { r: 186, g: 64, b: 0 },
        ]
    );
}

#[test]
fn mode_functions_agree_with_the_dispatcher() {
    for v in vectors() {
        let diff = v.word >> 33 & 1 == 1;
        let punch = v.one_bit_alpha && !diff;
        let tile = match v.mode {
            ColorMode::Individual => decompress_block_diff_flip(v.word, false),
            ColorMode::Differential => decompress_block_diff_flip(v.word, v.one_bit_alpha),
            ColorMode::T => decompress_block_thumb(unstuff_59(v.word), Pattern::T, punch),
            ColorMode::H => decompress_block_thumb(unstuff_58(v.word), Pattern::H, punch),
            ColorMode::Planar => decompress_block_planar(unstuff_57(v.word)),
        };
        assert_eq!(tile, v.tile);
    }
}

#[test]
fn planar_corners_follow_the_formula() {
    let word: u64 = 0x47f00001fc0;
    let tile = decode(word, DecodeFormat::Etc2Rgb);
    assert_eq!(&tile[0][0..4], &[0, 0, 0, 255]);
    assert_eq!(&tile[0][12..16], &[191, 0, 0, 255]);
    assert_eq!(&tile[3][0..4], &[0, 191, 0, 255]);
    assert_eq!(&tile[3][12..16], &[191, 191, 0, 255]);
}

#[test]
fn block_that_ends_early_is_truncated_input() {
    assert_eq!(decode_single_block(&[0u8; 7], DecodeFormat::EtcRgb4), Err(ParseError::TruncatedInput));
    assert_eq!(decode_single_block(&[], DecodeFormat::Etc2Rgb), Err(ParseError::TruncatedInput));
    assert_eq!(decode_single_block(&[0u8; 7], DecodeFormat::Etc2Rgba1), Err(ParseError::TruncatedInput));
    assert_eq!(decode_single_block(&[0u8; 15], DecodeFormat::Etc2Rgba8), Err(ParseError::TruncatedInput));
    assert_eq!(decode_single_block(&[0u8; 8], DecodeFormat::Etc2Rgba8), Err(ParseError::TruncatedInput));
    assert!(decode_single_block(&[0u8; 16], DecodeFormat::Etc2Rgba8).is_ok());
    assert!(decode_single_block(&[0u8; 8], DecodeFormat::Etc2Rgb).is_ok());
}

#[test]
fn block_is_read_where_it_is_asked_for() {
    let mut bytes = vec![0xaau8; 3];
    bytes.extend_from_slice(&0x47f00001fc0u64.to_be_bytes());
    let tile = decode_block_at(&bytes, 3, DecodeFormat::Etc2Rgb).unwrap();
    assert_eq!(tile, decode(0x47f00001fc0, DecodeFormat::Etc2Rgb));
    assert_eq!(decode_block_at(&bytes, 4, DecodeFormat::Etc2Rgb), Err(ParseError::TruncatedInput));
    assert_eq!(decode_block_at(&bytes, usize::MAX, DecodeFormat::Etc2Rgb), Err(ParseError::TruncatedInput));
}
