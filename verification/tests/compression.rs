use unityfs::compression::CompressedBlock;
use unityfs::compression::CompressedBlockStorage;
use unityfs::compression::CompressionType;
use unityfs::error::Lz4Error;
use unityfs::error::ParseError;

const LZ4_BLOCK: [u8; 8] = [0x50, b'a', b'b', b'c', b'd', b'e', 0x04, 0x00];

fn three_blocks<'a>() -> CompressedBlockStorage<'a> {
    let blocks = vec![
        CompressedBlock::from_slice(3, 0, b"abc"),
        CompressedBlock::from_slice(9, 3, &LZ4_BLOCK),
        CompressedBlock::from_slice(2, 0, b"xy"),
    ];
    CompressedBlockStorage::from_blocks(blocks).unwrap()
}

#[test]
fn kind_numbers_name_the_schemes() {
    assert_eq!(CompressionType::from_u32(0), None);
    assert_eq!(CompressionType::from_u32(1), Some(CompressionType::Lzma));
    assert_eq!(CompressionType::from_u32(2), Some(CompressionType::Lz4));
    assert_eq!(CompressionType::from_u32(3), Some(CompressionType::Lz4Hc));
    assert_eq!(CompressionType::from_u32(4), Some(CompressionType::Lzham));
    assert_eq!(CompressionType::from_u32(5), None);
    assert_eq!(CompressionType::from_u32(63), None);
}

#[test]
fn lz4_schemes_decode_and_the_others_are_unsupported() {
    assert_eq!(CompressionType::Lz4.decompress(&LZ4_BLOCK), Ok(b"abcdebcde".to_vec()));
    assert_eq!(CompressionType::Lz4Hc.decompress(&LZ4_BLOCK), Ok(b"abcdebcde".to_vec()));
    assert_eq!(CompressionType::Lzma.decompress(&LZ4_BLOCK), Err(ParseError::UnsupportedCompression));
    assert_eq!(CompressionType::Lzham.decompress(&LZ4_BLOCK), Err(ParseError::UnsupportedCompression));
    assert_eq!(
        CompressionType::Lz4.decompress(&[0x10, b'a', 0x02, 0x00]),
        Err(ParseError::Lz4BadStream(Lz4Error::InvalidLookback))
    );
    assert_eq!(
        CompressionType::Lz4.decompress(&[0xf0]),
        Err(ParseError::Lz4BadStream(Lz4Error::UnexpectedEnd))
    );
}

#[test]
fn block_remembers_its_declared_size() {
    assert_eq!(CompressedBlock::from_slice(77, 2, &LZ4_BLOCK).uncompressed_size(), 77);
}

#[test]
fn stored_block_expands_to_itself() {
    assert_eq!(CompressedBlock::from_slice(3, 0, b"abc").decompress(), Ok(b"abc".to_vec()));
    assert_eq!(CompressedBlock::from_slice(3, 9, b"abc").decompress(), Ok(b"abc".to_vec()));
}

#[test]
fn compressed_block_expands_under_its_scheme() {
    assert_eq!(CompressedBlock::from_slice(9, 2, &LZ4_BLOCK).decompress(), Ok(b"abcdebcde".to_vec()));
    assert_eq!(CompressedBlock::from_slice(9, 1, &LZ4_BLOCK).decompress(), Err(ParseError::UnsupportedCompression));
    assert_eq!(CompressedBlock::from_slice(9, 4, &LZ4_BLOCK).decompress(), Err(ParseError::UnsupportedCompression));
}

#[test]
fn storage_spans_the_sum_of_the_sizes() {
    let storage = three_blocks();
    assert_eq!(storage.len(), 14);
    assert_eq!(storage.materializations(), 0);
}

#[test]
fn whole_space_reads_as_the_blocks_end_to_end() {
    let mut storage = three_blocks();
    assert_eq!(storage.read_range(0..14).unwrap(), b"abcabcdebcdexy");
    assert_eq!(storage.materializations(), 3);
}

#[test]
fn range_across_blocks_expands_only_the_blocks_it_touches() {
    let mut storage = three_blocks();
    assert_eq!(storage.read_range(2..5).unwrap(), b"cab");
    assert_eq!(storage.materializations(), 2);
    assert_eq!(storage.read_range(12..14).unwrap(), b"xy");
    assert_eq!(storage.materializations(), 3);
}

#[test]
fn range_that_ends_at_a_block_boundary_leaves_the_next_block_alone() {
    let mut storage = three_blocks();
    assert_eq!(storage.read_range(0..3).unwrap(), b"abc");
    assert_eq!(storage.materializations(), 1);
    assert_eq!(storage.read_range(3..12).unwrap(), b"abcdebcde");
    assert_eq!(storage.materializations(), 2);
}

#[test]
fn repeated_read_gives_the_same_bytes_and_expands_nothing() {
    let mut storage = three_blocks();
    let first = storage.read_range(1..13).unwrap().to_vec();
    let count = storage.materializations();
    assert_eq!(count, 3);
    let second = storage.read_range(1..13).unwrap().to_vec();
    assert_eq!(first, second);
    assert_eq!(storage.materializations(), count);
    let third = storage.read_range(4..6).unwrap().to_vec();
    assert_eq!(third, b"bc".to_vec());
    assert_eq!(storage.materializations(), count);
}

#[test]
fn empty_range_reads_nothing_and_expands_nothing() {
    let mut storage = three_blocks();
    assert_eq!(storage.read_range(0..0).unwrap(), b"");
    assert_eq!(storage.read_range(3..3).unwrap(), b"");
    assert_eq!(storage.read_range(14..14).unwrap(), b"");
    assert_eq!(storage.materializations(), 0);
}

#[test]
fn range_outside_the_space_is_truncated_input() {
    let mut storage = three_blocks();
    assert_eq!(storage.read_range(0..15), Err(ParseError::TruncatedInput));
    assert_eq!(storage.read_range(15..15), Err(ParseError::TruncatedInput));
    assert_eq!(storage.read_range(5..4), Err(ParseError::TruncatedInput));
    assert_eq!(storage.materializations(), 0);
}

#[test]
fn storage_without_blocks_is_empty() {
    let mut storage = CompressedBlockStorage::from_blocks(Vec::new()).unwrap();
    assert_eq!(storage.len(), 0);
    assert_eq!(storage.read_range(0..0).unwrap(), b"");
    assert_eq!(storage.read_range(0..1), Err(ParseError::TruncatedInput));
}

#[test]
fn block_of_another_size_than_declared_is_a_size_mismatch() {
    let blocks = vec![
        CompressedBlock::from_slice(3, 0, b"abc"),
        CompressedBlock::from_slice(5, 2, &LZ4_BLOCK),
        CompressedBlock::from_slice(2, 0, b"xy"),
    ];
    let mut storage = CompressedBlockStorage::from_blocks(blocks).unwrap();
    assert_eq!(storage.len(), 10);
    assert_eq!(storage.read_range(0..10), Err(ParseError::Lz4SizeMismatch));
    assert_eq!(storage.materializations(), 1);
    assert_eq!(storage.read_range(0..3).unwrap(), b"abc");
    assert_eq!(storage.read_range(8..10).unwrap(), b"xy");
    assert_eq!(storage.materializations(), 2);
    assert_eq!(storage.read_range(4..5), Err(ParseError::Lz4SizeMismatch));
}

#[test]
fn stored_block_of_another_size_than_declared_is_a_size_mismatch() {
    let blocks = vec![CompressedBlock::from_slice(4, 0, b"abc")];
    let mut storage = CompressedBlockStorage::from_blocks(blocks).unwrap();
    assert_eq!(storage.read_range(0..4), Err(ParseError::Lz4SizeMismatch));
}

#[test]
fn bad_stream_and_missing_scheme_surface_when_the_block_is_touched() {
    let bad: [u8; 4] = [0x10, b'a', 0x02, 0x00];
    let blocks = vec![
        CompressedBlock::from_slice(3, 0, b"abc"),
        CompressedBlock::from_slice(5, 3, &bad),
        CompressedBlock::from_slice(9, 1, &LZ4_BLOCK),
    ];
    let mut storage = CompressedBlockStorage::from_blocks(blocks).unwrap();
    assert_eq!(storage.read_range(1..3).unwrap(), b"bc");
    assert_eq!(storage.read_range(1..4), Err(ParseError::Lz4BadStream(Lz4Error::InvalidLookback)));
    assert_eq!(storage.read_range(8..9), Err(ParseError::UnsupportedCompression));
    assert_eq!(storage.read_range(3..17), Err(ParseError::Lz4BadStream(Lz4Error::InvalidLookback)));
    assert_eq!(storage.materializations(), 1);
}

#[test]
fn empty_blocks_take_no_room() {
    let blocks = vec![
        CompressedBlock::from_slice(2, 0, b"ab"),
        CompressedBlock::from_slice(0, 0, b""),
        CompressedBlock::from_slice(0, 0, b""),
        CompressedBlock::from_slice(2, 0, b"cd"),
    ];
    let mut storage = CompressedBlockStorage::from_blocks(blocks).unwrap();
    assert_eq!(storage.len(), 4);
    assert_eq!(storage.read_range(1..3).unwrap(), b"bc");
    assert_eq!(storage.read_range(0..4).unwrap(), b"abcd");
}

#[test]
fn sizes_beyond_the_address_space_are_a_bad_header() {
    let count = if usize::MAX as u128 > u32::MAX as u128 { 0 } else { 2 };
    let blocks: Vec<CompressedBlock> =
        (0..count).map(|_| CompressedBlock::from_slice(u32::MAX, 0, b"")).collect();
    let result = CompressedBlockStorage::from_blocks(blocks);
    if count == 0 {
        assert!(result.is_ok());
    } else {
        assert!(matches!(result, Err(ParseError::BadHeader)));
    }
}
