use unityfs::container::UnityFs;
use unityfs::error::ParseError;
use unityfs::error::TextureField;
use unityfs::etc::decode_single_block;
use unityfs::etc::DecodeFormat;
use unityfs::texture::decode_texture;
use unityfs::texture::finish_dxt;
use unityfs::texture::texture_format;
use unityfs::texture::DxtVariant;
use unityfs::texture::StreamingInfo;
use unityfs::texture::Texture2D;
use unityfs::texture::TextureFormat;
use unityfs::type_tree::Catalog;
use unityfs::type_tree::Data;

const PLANAR: u64 = 0x47f00001fc0;
const T_BLOCK: u64 = 0xfb00008600120011;

fn input(blocks: &[u64]) -> Vec<u8> {
    let mut bytes = Vec::new();
    for b in blocks {
        bytes.extend_from_slice(&b.to_be_bytes());
    }
    bytes
}

fn pixel(image: &[u8], width: usize, col: usize, row: usize) -> [u8; 4] {
    let at = (row * width + col) * 4;
    [image[at], image[at + 1], image[at + 2], image[at + 3]]
}

fn tile_pixel(block: u64, x: usize, y: usize) -> [u8; 4] {
    let tile = decode_single_block(&block.to_be_bytes(), DecodeFormat::Etc2Rgb).unwrap();
    [tile[y][4 * x], tile[y][4 * x + 1], tile[y][4 * x + 2], tile[y][4 * x + 3]]
}

#[test]
fn single_block_fills_the_image_row_by_row() {
    let image = decode_texture(4, 4, DecodeFormat::Etc2Rgb, &input(&[PLANAR])).unwrap();
    assert_eq!(image.len(), 64);
    for row in 0..4 {
        for col in 0..4 {
            assert_eq!(pixel(&image, 4, col, row), tile_pixel(PLANAR, col, row));
        }
    }
    assert_eq!(pixel(&image, 4, 0, 0), [0, 0, 0, 255]);
    assert_eq!(pixel(&image, 4, 3, 0), [191, 0, 0, 255]);
    assert_eq!(pixel(&image, 4, 0, 3), [0, 191, 0, 255]);
    assert_eq!(pixel(&image, 4, 3, 3), [191, 191, 0, 255]);
}

#[test]
fn first_block_stands_in_the_lowest_band_of_the_image() {
    let image = decode_texture(4, 8, DecodeFormat::Etc2Rgb, &input(&[PLANAR, T_BLOCK])).unwrap();
    assert_eq!(image.len(), 4 * 8 * 4);
    assert_eq!(pixel(&image, 4, 0, 8 - 4), tile_pixel(PLANAR, 0, 0));
    for row in 0..4 {
        for col in 0..4 {
            assert_eq!(pixel(&image, 4, col, row), tile_pixel(T_BLOCK, col, row));
            assert_eq!(pixel(&image, 4, col, 4 + row), tile_pixel(PLANAR, col, row));
        }
    }
}

#[test]
fn blocks_of_a_band_stand_side_by_side() {
    let image = decode_texture(8, 4, DecodeFormat::Etc2Rgb, &input(&[PLANAR, T_BLOCK])).unwrap();
    for row in 0..4 {
        for col in 0..4 {
            assert_eq!(pixel(&image, 8, col, row), tile_pixel(PLANAR, col, row));
            assert_eq!(pixel(&image, 8, 4 + col, row), tile_pixel(T_BLOCK, col, row));
        }
    }
}

#[test]
fn blocks_are_read_band_by_band() {
    let blocks = [PLANAR, T_BLOCK, 0, 0xf0800f3c0000ffff];
    let image = decode_texture(8, 8, DecodeFormat::Etc2Rgb, &input(&blocks)).unwrap();
    for row in 0..4 {
        for col in 0..4 {
            assert_eq!(pixel(&image, 8, col, 4 + row), tile_pixel(blocks[0], col, row));
            assert_eq!(pixel(&image, 8, 4 + col, 4 + row), tile_pixel(blocks[1], col, row));
            assert_eq!(pixel(&image, 8, col, row), tile_pixel(blocks[2], col, row));
            assert_eq!(pixel(&image, 8, 4 + col, row), tile_pixel(blocks[3], col, row));
        }
    }
}

#[test]
fn columns_beyond_the_width_are_dropped() {
    let image = decode_texture(5, 4, DecodeFormat::Etc2Rgb, &input(&[PLANAR, T_BLOCK])).unwrap();
    assert_eq!(image.len(), 5 * 4 * 4);
    for row in 0..4 {
        for col in 0..4 {
            assert_eq!(pixel(&image, 5, col, row), tile_pixel(PLANAR, col, row));
        }
        assert_eq!(pixel(&image, 5, 4, row), tile_pixel(T_BLOCK, 0, row));
    }
    let image = decode_texture(2, 4, DecodeFormat::Etc2Rgb, &input(&[PLANAR])).unwrap();
    assert_eq!(image.len(), 2 * 4 * 4);
    assert_eq!(pixel(&image, 2, 1, 3), tile_pixel(PLANAR, 1, 3));
}

#[test]
fn rows_above_the_image_are_dropped() {
    let image = decode_texture(4, 5, DecodeFormat::Etc2Rgb, &input(&[PLANAR, T_BLOCK])).unwrap();
    assert_eq!(image.len(), 4 * 5 * 4);
    for col in 0..4 {
        assert_eq!(pixel(&image, 4, col, 0), tile_pixel(T_BLOCK, col, 3));
        for row in 0..4 {
            assert_eq!(pixel(&image, 4, col, 1 + row), tile_pixel(PLANAR, col, row));
        }
    }
    let image = decode_texture(4, 2, DecodeFormat::Etc2Rgb, &input(&[PLANAR])).unwrap();
    assert_eq!(image.len(), 4 * 2 * 4);
    for col in 0..4 {
        assert_eq!(pixel(&image, 4, col, 0), tile_pixel(PLANAR, col, 2));
        assert_eq!(pixel(&image, 4, col, 1), tile_pixel(PLANAR, col, 3));
    }
}

#[test]
fn image_without_pixels_needs_no_input() {
    assert_eq!(decode_texture(0, 0, DecodeFormat::Etc2Rgb, &[]), Ok(Vec::new()));
    assert_eq!(decode_texture(0, 9, DecodeFormat::Etc2Rgb, &[]), Ok(Vec::new()));
    assert_eq!(decode_texture(9, 0, DecodeFormat::Etc2Rgba8, &[]), Ok(Vec::new()));
}

#[test]
fn too_few_blocks_are_truncated_input() {
    let two = input(&[PLANAR, T_BLOCK]);
    assert_eq!(decode_texture(4, 4, DecodeFormat::Etc2Rgb, &two[..7]), Err(ParseError::TruncatedInput));
    assert_eq!(decode_texture(5, 5, DecodeFormat::Etc2Rgb, &two), Err(ParseError::TruncatedInput));
    assert_eq!(decode_texture(4, 8, DecodeFormat::Etc2Rgba8, &two), Err(ParseError::TruncatedInput));
    assert!(decode_texture(4, 4, DecodeFormat::Etc2Rgba8, &two).is_ok());
    assert_eq!(
        decode_texture(u32::MAX, u32::MAX, DecodeFormat::Etc2Rgba8, &two),
        Err(ParseError::TruncatedInput)
    );
}

#[test]
fn alpha_words_come_before_their_color_words() {
    let alpha: u64 = 0x6413ec0000000000;
    let image = decode_texture(4, 4, DecodeFormat::Etc2Rgba8, &input(&[alpha, PLANAR])).unwrap();
    assert_eq!(pixel(&image, 4, 0, 0), [0, 0, 0, 112]);
    assert_eq!(pixel(&image, 4, 0, 1), [0, 64, 0, 87]);
    assert_eq!(pixel(&image, 4, 3, 3), [191, 191, 0, 98]);
}

#[test]
fn format_codes_name_the_formats() {
    assert_eq!(texture_format(34), Ok(TextureFormat::Etc(DecodeFormat::EtcRgb4)));
    assert_eq!(texture_format(45), Ok(TextureFormat::Etc(DecodeFormat::Etc2Rgb)));
    assert_eq!(texture_format(46), Ok(TextureFormat::Etc(DecodeFormat::Etc2Rgba1)));
    assert_eq!(texture_format(47), Ok(TextureFormat::Etc(DecodeFormat::Etc2Rgba8)));
    assert_eq!(texture_format(10), Ok(TextureFormat::Dxt(DxtVariant::Dxt1)));
    assert_eq!(texture_format(12), Ok(TextureFormat::Dxt(DxtVariant::Dxt5)));
    assert_eq!(texture_format(11), Err(ParseError::TextureFormatUnsupported { code: 11 }));
    assert_eq!(texture_format(-1), Err(ParseError::TextureFormatUnsupported { code: -1 }));
    assert_eq!(texture_format(0), Err(ParseError::TextureFormatUnsupported { code: 0 }));
}

const DXT1_BLOCK: [u8; 8] = [0x00, 0xf8, 0x1f, 0x00, 0x00, 0x55, 0xaa, 0xff];

#[test]
fn dxt1_image_is_expanded_and_flipped() {
    let image = Texture2D::read_dxt(4, 4, DxtVariant::Dxt1, &DXT1_BLOCK).unwrap();
    assert_eq!(image.len(), 64);
    for col in 0..4 {
        assert_eq!(pixel(&image, 4, col, 0), [85, 0, 170, 255]);
        assert_eq!(pixel(&image, 4, col, 1), [170, 0, 85, 255]);
        assert_eq!(pixel(&image, 4, col, 2), [0, 0, 255, 255]);
        assert_eq!(pixel(&image, 4, col, 3), [255, 0, 0, 255]);
    }
    assert_eq!(Texture2D::read(4, 4, TextureFormat::Dxt(DxtVariant::Dxt1), &DXT1_BLOCK), Ok(image));
}

#[test]
fn dxt5_image_has_its_own_alpha() {
    let mut block = vec![200u8, 100, 0, 0, 0, 0, 0, 0];
    block.extend_from_slice(&DXT1_BLOCK);
    let image = Texture2D::read_dxt(4, 4, DxtVariant::Dxt5, &block).unwrap();
    assert_eq!(image.len(), 64);
    for col in 0..4 {
        assert_eq!(pixel(&image, 4, col, 0), [85, 0, 170, 200]);
        assert_eq!(pixel(&image, 4, col, 3), [255, 0, 0, 200]);
    }
}

#[test]
fn dxt_sides_must_be_multiples_of_four() {
    let width = Err(ParseError::TextureFieldMismatch { field: TextureField::Width });
    let height = Err(ParseError::TextureFieldMismatch { field: TextureField::Height });
    assert_eq!(Texture2D::read_dxt(0, 4, DxtVariant::Dxt1, &DXT1_BLOCK), width);
    assert_eq!(Texture2D::read_dxt(5, 4, DxtVariant::Dxt1, &DXT1_BLOCK), width);
    assert_eq!(Texture2D::read_dxt(4, 6, DxtVariant::Dxt1, &DXT1_BLOCK), height);
    assert_eq!(Texture2D::read_dxt(4, 0, DxtVariant::Dxt1, &[]), Ok(Vec::new()));
}

#[test]
fn dxt_image_with_too_few_blocks_is_truncated_input() {
    assert_eq!(Texture2D::read_dxt(4, 4, DxtVariant::Dxt1, &DXT1_BLOCK[..7]), Err(ParseError::TruncatedInput));
    assert_eq!(Texture2D::read_dxt(8, 4, DxtVariant::Dxt1, &DXT1_BLOCK), Err(ParseError::TruncatedInput));
    assert_eq!(Texture2D::read_dxt(4, 4, DxtVariant::Dxt5, &DXT1_BLOCK), Err(ParseError::TruncatedInput));
}

#[test]
fn decoded_dxt_image_must_have_the_size_of_its_texture() {
    assert_eq!(finish_dxt(1, 1, DxtVariant::Dxt1, Some(vec![1, 2, 3, 4])), Ok(vec![1, 2, 3, 4]));
    assert_eq!(
        finish_dxt(1, 1, DxtVariant::Dxt1, Some(vec![1, 2, 3])),
        Err(ParseError::TextureFormatUnsupported { code: 10 })
    );
    assert_eq!(
        finish_dxt(1, 1, DxtVariant::Dxt5, None),
        Err(ParseError::TextureFormatUnsupported { code: 12 })
    );
    assert_eq!(finish_dxt(0, 7, DxtVariant::Dxt5, Some(Vec::new())), Ok(Vec::new()));
}

fn streaming_info(path: &str, offset: u32, size: u32) -> Data {
    Data::GenericStruct {
        ty_name: "StreamingInfo".to_string(),
        fields: vec![
            ("offset".to_string(), Data::UInt32(offset)),
            ("size".to_string(), Data::UInt32(size)),
            ("path".to_string(), Data::String(path.as_bytes().to_vec())),
        ],
    }
}

fn texture(name: &str, width: i32, height: i32, code: i32, image: &[u8], stream: Data) -> Data {
    Data::GenericStruct {
        ty_name: "Texture2D".to_string(),
        fields: vec![
            ("m_Name".to_string(), Data::String(name.as_bytes().to_vec())),
            ("m_Width".to_string(), Data::SInt32(width)),
            ("m_Height".to_string(), Data::SInt32(height)),
            ("m_TextureFormat".to_string(), Data::SInt32(code)),
            ("image data".to_string(), Data::UInt8Array(image.to_vec())),
            ("m_StreamData".to_string(), stream),
        ],
    }
}

fn without(data: &Data, name: &str) -> Data {
    match data {
        Data::GenericStruct { ty_name, fields } => Data::GenericStruct {
            ty_name: ty_name.clone(),
            fields: fields.iter().filter(|f| f.0 != name).map(|f| (f.0.clone(), f.1.clone_owned())).collect(),
        },
        other => other.clone_owned(),
    }
}

fn with(data: &Data, name: &str, value: Data) -> Data {
    match without(data, name) {
        Data::GenericStruct { ty_name, mut fields } => {
            fields.push((name.to_string(), value));
            Data::GenericStruct { ty_name, fields }
        }
        other => other,
    }
}

#[test]
fn streaming_info_is_read_from_its_struct() {
    let info = StreamingInfo::from_data(&streaming_info("archive:/a/b", 16, 64)).unwrap();
    assert_eq!(info, StreamingInfo { path: "archive:/a/b".to_string(), offset: 16, size: 64 });
}

#[test]
fn streaming_info_names_the_field_that_is_wrong() {
    let good = streaming_info("p", 1, 2);
    let mismatch = |field| Err(ParseError::TextureFieldMismatch { field });
    assert_eq!(StreamingInfo::from_data(&Data::UInt32(1)), mismatch(TextureField::StreamData));
    let renamed = match without(&good, "") {
        Data::GenericStruct { fields, .. } => Data::GenericStruct { ty_name: "Other".to_string(), fields },
        other => other,
    };
    assert_eq!(StreamingInfo::from_data(&renamed), mismatch(TextureField::StreamData));
    assert_eq!(StreamingInfo::from_data(&without(&good, "path")), mismatch(TextureField::Path));
    assert_eq!(StreamingInfo::from_data(&without(&good, "offset")), mismatch(TextureField::Offset));
    assert_eq!(StreamingInfo::from_data(&without(&good, "size")), mismatch(TextureField::Size));
    assert_eq!(StreamingInfo::from_data(&with(&good, "path", Data::UInt32(1))), mismatch(TextureField::Path));
    assert_eq!(StreamingInfo::from_data(&with(&good, "offset", Data::SInt32(1))), mismatch(TextureField::Offset));
    assert_eq!(StreamingInfo::from_data(&with(&good, "size", Data::UInt64(1))), mismatch(TextureField::Size));
}

#[test]
fn texture_with_its_pixels_in_the_object_is_loaded() {
    let data = texture("grass", 4, 4, 45, &input(&[PLANAR]), streaming_info("", 0, 0));
    let t = Texture2D::from_data(&data).unwrap();
    assert_eq!(t.name(), "grass");
    assert_eq!(t.width(), 4);
    assert_eq!(t.height(), 4);
    assert_eq!(t.asset_dependency(), None);
    let expected = decode_texture(4, 4, DecodeFormat::Etc2Rgb, &input(&[PLANAR])).unwrap();
    assert_eq!(t.image_rgba8(), Some(&expected[..]));
}

#[test]
fn texture_of_every_known_format_is_loaded() {
    let sixteen = input(&[0x6413ec0000000000, PLANAR]);
    for (code, bytes) in [(34, &sixteen[8..]), (45, &sixteen[8..]), (46, &sixteen[8..]), (47, &sixteen[..]), (10, &DXT1_BLOCK[..]), (12, &sixteen[..])] {
        let data = texture("t", 4, 4, code, bytes, streaming_info("", 0, 0));
        let t = Texture2D::from_data(&data).unwrap();
        assert_eq!(t.image_rgba8().unwrap().len(), 64);
    }
}

#[test]
fn texture_with_a_streaming_path_waits_for_its_resource() {
    let data = texture("sky", 4, 4, 34, &[], streaming_info("archive:/bundle/sky.resS", 8, 8));
    let t = Texture2D::from_data(&data).unwrap();
    assert_eq!(t.name(), "sky");
    assert_eq!(t.image_rgba8(), None);
    assert_eq!(t.asset_dependency(), Some("archive:/bundle/sky.resS".to_string()));
    assert_eq!(t.encode(), Ok(None));
}

#[test]
fn texture_names_the_field_that_is_wrong() {
    let good = texture("t", 4, 4, 45, &input(&[PLANAR]), streaming_info("", 0, 0));
    let mismatch = |field| Err(ParseError::TextureFieldMismatch { field });
    let check = |data: &Data| Texture2D::from_data(data).map(|_| ());
    assert_eq!(check(&Data::Bool(true)), mismatch(TextureField::Name));
    assert_eq!(check(&without(&good, "m_Name")), mismatch(TextureField::Name));
    assert_eq!(check(&without(&good, "m_Width")), mismatch(TextureField::Width));
    assert_eq!(check(&without(&good, "m_Height")), mismatch(TextureField::Height));
    assert_eq!(check(&without(&good, "image data")), mismatch(TextureField::ImageData));
    assert_eq!(check(&without(&good, "m_TextureFormat")), mismatch(TextureField::TextureFormat));
    assert_eq!(check(&without(&good, "m_StreamData")), mismatch(TextureField::StreamData));
    assert_eq!(check(&with(&good, "m_Name", Data::UInt8Array(Vec::new()))), mismatch(TextureField::Name));
    assert_eq!(check(&with(&good, "m_Width", Data::UInt32(4))), mismatch(TextureField::Width));
    assert_eq!(check(&with(&good, "m_Height", Data::UInt32(4))), mismatch(TextureField::Height));
    assert_eq!(check(&with(&good, "image data", Data::String(Vec::new()))), mismatch(TextureField::ImageData));
    assert_eq!(check(&with(&good, "m_TextureFormat", Data::UInt32(45))), mismatch(TextureField::TextureFormat));
    assert_eq!(check(&with(&good, "m_StreamData", Data::UInt32(45))), mismatch(TextureField::StreamData));
    assert_eq!(check(&with(&good, "m_StreamData", without(&streaming_info("", 0, 0), "size"))), mismatch(TextureField::Size));
    assert_eq!(
        check(&with(&good, "m_TextureFormat", Data::SInt32(4))),
        Err(ParseError::TextureFormatUnsupported { code: 4 })
    );
    assert_eq!(check(&with(&good, "image data", Data::UInt8Array(vec![0; 7]))), Err(ParseError::TruncatedInput));
    assert_eq!(check(&with(&good, "m_Width", Data::SInt32(-1))), Err(ParseError::TruncatedInput));
}

#[test]
fn loaded_texture_encodes_to_a_png_file() {
    let data = texture("grass", 8, 4, 45, &input(&[PLANAR, T_BLOCK]), streaming_info("", 0, 0));
    let t = Texture2D::from_data(&data).unwrap();
    let file = t.encode().unwrap().unwrap();
    assert_eq!(&file[..8], &[137, 80, 78, 71, 13, 10, 26, 10]);
    assert_eq!(&file[8..16], &[0, 0, 0, 13, b'I', b'H', b'D', b'R']);
    assert_eq!(&file[16..24], &[0, 0, 0, 8, 0, 0, 0, 4]);
    assert_eq!(&file[24..26], &[8, 6]);
    assert_eq!(&file[file.len() - 8..file.len() - 4], b"IEND");
    assert_ne!(&file[..], t.image_rgba8().unwrap());
    assert_eq!(t.encode().unwrap().unwrap(), file);
}

#[test]
fn texture_without_pixels_does_not_encode() {
    let data = texture("none", 0, 0, 45, &[], streaming_info("", 0, 0));
    let t = Texture2D::from_data(&data).unwrap();
    assert_eq!(t.image_rgba8(), Some(&[][..]));
    assert_eq!(t.encode(), Err(ParseError::TextureFieldMismatch { field: TextureField::ImageData }));
    assert_eq!(Texture2D::finish_encode(Some(vec![1])), Ok(Some(vec![1])));
    assert_eq!(
        Texture2D::finish_encode(None),
        Err(ParseError::TextureFieldMismatch { field: TextureField::ImageData })
    );
}

fn old_node(ty_name: &str, name: &str, size: u32, is_array: u32, flags: u32, children: u32) -> Vec<u8> {
    let mut bytes = Vec::new();
    bytes.extend_from_slice(ty_name.as_bytes());
    bytes.push(0);
    bytes.extend_from_slice(name.as_bytes());
    bytes.push(0);
    for v in [size, 0, is_array, 1, flags, children] {
        bytes.extend_from_slice(&v.to_be_bytes());
    }
    bytes
}

/// A container whose main asset is called `bundle` and has one object, and
/// whose second node `sky.resS` holds `resource`.
fn container(resource: &[u8]) -> Vec<u8> {
    let mut tables = b"5.0\0".to_vec();
    tables.extend_from_slice(&5u32.to_be_bytes());
    tables.extend_from_slice(&1u32.to_be_bytes());
    tables.extend_from_slice(&1i32.to_be_bytes());
    tables.extend(old_node("UInt8", "Base", 1, 0, 0, 0));
    tables.extend_from_slice(&1u32.to_be_bytes());
    tables.extend_from_slice(&1u32.to_be_bytes());
    tables.extend_from_slice(&0u32.to_be_bytes());
    tables.extend_from_slice(&1u32.to_be_bytes());
    tables.extend_from_slice(&1i32.to_be_bytes());
    tables.extend_from_slice(&1i16.to_be_bytes());
    tables.push(0);
    tables.push(0);
    let data_offset = 16 + tables.len() as u32;
    let mut asset = Vec::new();
    asset.extend_from_slice(&(tables.len() as u32).to_be_bytes());
    asset.extend_from_slice(&(data_offset + 1).to_be_bytes());
    asset.extend_from_slice(&6u32.to_be_bytes());
    asset.extend_from_slice(&data_offset.to_be_bytes());
    asset.extend(tables);
    asset.push(7);
    let mut metadata = vec![0u8; 16];
    metadata.extend_from_slice(&1u32.to_be_bytes());
    let total = (asset.len() + resource.len()) as u32;
    metadata.extend_from_slice(&total.to_be_bytes());
    metadata.extend_from_slice(&total.to_be_bytes());
    metadata.extend_from_slice(&0u16.to_be_bytes());
    metadata.extend_from_slice(&2u32.to_be_bytes());
    metadata.extend_from_slice(&0u64.to_be_bytes());
    metadata.extend_from_slice(&(asset.len() as u64).to_be_bytes());
    metadata.extend_from_slice(&4u32.to_be_bytes());
    metadata.extend_from_slice(b"bundle\0");
    metadata.extend_from_slice(&(asset.len() as u64).to_be_bytes());
    metadata.extend_from_slice(&(resource.len() as u64).to_be_bytes());
    metadata.extend_from_slice(&4u32.to_be_bytes());
    metadata.extend_from_slice(b"sky.resS\0");
    let mut bytes = b"UnityFS\0".to_vec();
    bytes.extend_from_slice(&6u32.to_be_bytes());
    bytes.extend_from_slice(b"5.x.x\0");
    bytes.extend_from_slice(b"2017.4.1f1\0");
    bytes.extend_from_slice(&0u64.to_be_bytes());
    bytes.extend_from_slice(&(metadata.len() as u32).to_be_bytes());
    bytes.extend_from_slice(&(metadata.len() as u32).to_be_bytes());
    bytes.extend_from_slice(&0u32.to_be_bytes());
    bytes.extend(metadata);
    bytes.extend(asset);
    bytes.extend_from_slice(resource);
    bytes
}

fn resource() -> Vec<u8> {
    let mut bytes = vec![0xee; 8];
    bytes.extend(input(&[PLANAR]));
    bytes.extend_from_slice(&[0xee; 4]);
    bytes
}

fn deferred(path: &str, offset: u32, size: u32) -> Texture2D {
    Texture2D::from_data(&texture("sky", 4, 4, 45, &[], streaming_info(path, offset, size))).unwrap()
}

#[test]
fn waiting_texture_is_resolved_from_its_container() {
    let fs = UnityFs::load(&container(&resource()), &Catalog::empty()).unwrap();
    assert_eq!(fs.name(), "bundle");
    let mut t = deferred("archive:/bundle/sky.resS", 8, 8);
    assert_eq!(t.try_resolve(&fs), Ok(()));
    assert_eq!(t.asset_dependency(), None);
    let expected = decode_texture(4, 4, DecodeFormat::Etc2Rgb, &input(&[PLANAR])).unwrap();
    assert_eq!(t.image_rgba8(), Some(&expected[..]));
    assert_eq!(t.try_resolve(&fs), Ok(()));
    assert_eq!(t.image_rgba8(), Some(&expected[..]));
}

#[test]
fn path_may_go_on_after_the_resource() {
    let fs = UnityFs::load(&container(&resource()), &Catalog::empty()).unwrap();
    let mut t = deferred("archive:/bundle/sky.resS/more", 8, 8);
    assert_eq!(t.try_resolve(&fs), Ok(()));
    assert!(t.image_rgba8().is_some());
}

#[test]
fn texture_keeps_waiting_where_the_container_is_not_the_one() {
    let fs = UnityFs::load(&container(&resource()), &Catalog::empty()).unwrap();
    for path in [
        "sky.resS",
        "archive:bundle/sky.resS",
        "archive:/bundle",
        "archive:/other/sky.resS",
        "archive:/bundle/other.resS",
        "archive:/bundle/",
        "archive://bundle/sky.resS",
        "Archive:/bundle/sky.resS",
        "archive:/bundlE/sky.resS",
    ] {
        let mut t = deferred(path, 8, 8);
        assert_eq!(t.try_resolve(&fs), Ok(()), "{}", path);
        assert_eq!(t.image_rgba8(), None, "{}", path);
        assert_eq!(t.asset_dependency(), Some(path.to_string()));
    }
}

#[test]
fn range_outside_the_resource_is_truncated_input() {
    let fs = UnityFs::load(&container(&resource()), &Catalog::empty()).unwrap();
    let mut t = deferred("archive:/bundle/sky.resS", 13, 8);
    assert_eq!(t.try_resolve(&fs), Err(ParseError::TruncatedInput));
    assert_eq!(t.image_rgba8(), None);
    let mut t = deferred("archive:/bundle/sky.resS", u32::MAX, u32::MAX);
    assert_eq!(t.try_resolve(&fs), Err(ParseError::TruncatedInput));
    let mut t = deferred("archive:/bundle/sky.resS", 8, 7);
    assert_eq!(t.try_resolve(&fs), Err(ParseError::TruncatedInput));
    assert_eq!(t.asset_dependency(), Some("archive:/bundle/sky.resS".to_string()));
    let mut t = deferred("archive:/bundle/sky.resS", 12, 8);
    assert_eq!(t.try_resolve(&fs), Ok(()));
}

#[test]
fn load_and_defer_make_the_two_kinds_of_texture() {
    let format = TextureFormat::Etc(DecodeFormat::Etc2Rgb);
    let loaded = Texture2D::load("a".to_string(), 4, 4, format, &input(&[PLANAR])).unwrap();
    assert!(loaded.image_rgba8().is_some());
    assert!(matches!(Texture2D::load("a".to_string(), 4, 4, format, &[]), Err(ParseError::TruncatedInput)));
    let info = StreamingInfo { path: "p".to_string(), offset: 0, size: 0 };
    let waiting = Texture2D::defer("b".to_string(), 4, 4, format, info);
    assert_eq!(waiting.asset_dependency(), Some("p".to_string()));
    assert_eq!(
        Texture2D::read_etc(4, 4, DecodeFormat::Etc2Rgb, &input(&[PLANAR])),
        decode_texture(4, 4, DecodeFormat::Etc2Rgb, &input(&[PLANAR]))
    );
}

#[test]
fn missing_resource_is_an_error_only_where_it_is_asked_for() {
    let fs = UnityFs::load(&container(&resource()), &Catalog::empty()).unwrap();
    let mut t = deferred("archive:/bundle/other.resS", 8, 8);
    assert_eq!(t.try_resolve(&fs), Ok(()));
    assert_eq!(t.resolve(&fs), Err(ParseError::StreamingResourceMissing));
    assert_eq!(t.asset_dependency(), Some("archive:/bundle/other.resS".to_string()));
    let mut t = deferred("archive:/bundle/sky.resS", 8, 8);
    assert_eq!(t.resolve(&fs), Ok(()));
    assert!(t.image_rgba8().is_some());
    assert_eq!(t.resolve(&fs), Ok(()));
    let mut t = deferred("archive:/bundle/sky.resS", 8, 100);
    assert_eq!(t.resolve(&fs), Err(ParseError::TruncatedInput));
}
