use unityfs::error::Lz4Error;
use unityfs::lz4::decode_block;
use unityfs::lz4::Sequences;

#[test]
fn literal_only_block() {
    let out = decode_block(&[0x30, b'a', b'b', b'c']).unwrap();
    assert_eq!(out, b"abc".to_vec());
}

#[test]
fn block_with_match() {
    let out = decode_block(&[0x50, b'a', b'b', b'c', b'd', b'e', 0x04, 0x00]).unwrap();
    assert_eq!(out, b"abcdebcde".to_vec());
}

#[test]
fn lookback_before_start_is_refused() {
    assert_eq!(decode_block(&[0x10, b'a', 0x02, 0x00]), Err(Lz4Error::InvalidLookback));
}

#[test]
fn zero_offset_is_refused() {
    assert_eq!(decode_block(&[0x10, b'a', 0x00, 0x00]), Err(Lz4Error::InvalidLookback));
}

#[test]
fn empty_block_decodes_to_nothing() {
    assert_eq!(decode_block(&[]), Ok(Vec::new()));
}

#[test]
fn lone_token_without_literal_is_a_final_sequence() {
    assert_eq!(decode_block(&[0x00]), Ok(Vec::new()));
}

#[test]
fn literal_that_runs_past_the_input_is_unexpected_end() {
    assert_eq!(decode_block(&[0x30, b'a', b'b']), Err(Lz4Error::UnexpectedEnd));
}

#[test]
fn literal_length_chain_without_end_is_unexpected_end() {
    assert_eq!(decode_block(&[0xf0]), Err(Lz4Error::UnexpectedEnd));
    assert_eq!(decode_block(&[0xf0, 0xff, 0xff]), Err(Lz4Error::UnexpectedEnd));
}

#[test]
fn half_a_match_offset_is_unexpected_end() {
    assert_eq!(decode_block(&[0x10, b'a', 0x01]), Err(Lz4Error::UnexpectedEnd));
}

#[test]
fn match_length_chain_without_end_is_unexpected_end() {
    assert_eq!(decode_block(&[0x1f, b'a', 0x01, 0x00]), Err(Lz4Error::UnexpectedEnd));
    assert_eq!(decode_block(&[0x1f, b'a', 0x01, 0x00, 0xff]), Err(Lz4Error::UnexpectedEnd));
}

#[test]
fn extended_literal_length_adds_the_chain() {
    let mut input = vec![0xf0, 0x05];
    let literal: Vec<u8> = (0..20u8).collect();
    input.extend_from_slice(&literal);
    assert_eq!(decode_block(&input), Ok(literal));
}

#[test]
fn extended_literal_length_counts_255_for_each_full_byte() {
    let mut input = vec![0xf0, 0xff, 0x00];
    let literal: Vec<u8> = (0..270u32).map(|i| (i % 251) as u8).collect();
    input.extend_from_slice(&literal);
    assert_eq!(decode_block(&input), Ok(literal));
}

#[test]
fn extended_match_length_adds_the_chain_and_the_minimum() {
    let out = decode_block(&[0x1f, b'x', 0x01, 0x00, 0x02]).unwrap();
    assert_eq!(out, vec![b'x'; 1 + 15 + 2 + 4]);
}

#[test]
fn match_may_run_into_its_own_output() {
    let out = decode_block(&[0x23, b'a', b'b', 0x02, 0x00]).unwrap();
    assert_eq!(out, b"ababababa".to_vec());
}

#[test]
fn sequences_follow_each_other() {
    let input = [0x10, b'a', 0x01, 0x00, 0x20, b'b', b'c'];
    assert_eq!(decode_block(&input), Ok(b"aaaaabc".to_vec()));
}

#[test]
fn decoded_length_is_the_sum_of_the_sequence_lengths() {
    let input = [0x10, b'a', 0x01, 0x00, 0x20, b'b', b'c'];
    let mut sequences = Sequences::new(&input);
    let mut total: u128 = 0;
    while let Some(sequence) = sequences.next() {
        total += sequence.unwrap().len();
    }
    assert_eq!(total, 7);
    assert_eq!(sequences.output_length, 7);
    assert_eq!(decode_block(&input).unwrap().len() as u128, total);
}

#[test]
fn first_bad_sequence_decides_the_error() {
    let input = [0x10, b'a', 0x09, 0x00, 0xf0];
    assert_eq!(decode_block(&input), Err(Lz4Error::InvalidLookback));
}

#[test]
fn error_messages_name_the_failure() {
    assert_eq!(Lz4Error::UnexpectedEnd.message(), "unexpected end of input");
    assert_eq!(Lz4Error::InvalidLookback.message(), "invalid lookback offset");
}
