//! Byte reader primitives: fixed-width integers in either byte order,
//! NUL-terminated and fixed-length strings, and alignment of a cursor to
//! four bytes relative to a logical base offset.
//!
//! Every reader takes the whole buffer and a position in it, and gives the
//! value together with the position after it.

use vstd::prelude::*;
use crate::error::ParseError;

verus! {

/// Byte order of the integers of one asset.
#[derive(Copy, Clone, Debug, PartialEq, Eq, Structural)]
pub enum Endianness {
    Big,
    Little,
}

/// What a parser yields on a buffer: the value and the position after it, or
/// the reason why there is none.
pub type Parsed<T> = Result<(T, int), ParseError>;

/// An executable result says the same as a specification result: the same
/// error, or a value with the same view at the same position.
pub open spec fn agrees<T: View>(r: Result<(T, usize), ParseError>, s: Parsed<T::V>) -> bool {
    match (r, s) {
        (Ok((v, next)), Ok((sv, snext))) => v@ == sv && next as int == snext,
        (Err(e), Err(se)) => e == se,
        _ => false,
    }
}

/// The unsigned value of the two bytes at `pos`.
pub open spec fn u16_at(s: Seq<u8>, pos: int, e: Endianness) -> int {
    match e {
        Endianness::Big => s[pos] as int * 0x100 + s[pos + 1] as int,
        Endianness::Little => s[pos] as int + s[pos + 1] as int * 0x100,
    }
}

/// The unsigned value of the four bytes at `pos`.
pub open spec fn u32_at(s: Seq<u8>, pos: int, e: Endianness) -> int {
    match e {
        Endianness::Big => s[pos] as int * 0x100_0000 + s[pos + 1] as int * 0x1_0000 + s[pos
            + 2] as int * 0x100 + s[pos + 3] as int,
        Endianness::Little => s[pos] as int + s[pos + 1] as int * 0x100 + s[pos + 2] as int
            * 0x1_0000 + s[pos + 3] as int * 0x100_0000,
    }
}

/// The unsigned value of the eight bytes at `pos`.
pub open spec fn u64_at(s: Seq<u8>, pos: int, e: Endianness) -> int {
    match e {
        Endianness::Big => u32_at(s, pos, e) * 0x1_0000_0000 + u32_at(s, pos + 4, e),
        Endianness::Little => u32_at(s, pos, e) + u32_at(s, pos + 4, e) * 0x1_0000_0000,
    }
}

/// The two's complement reading of an unsigned value below `2 * half`.
pub open spec fn signed(v: int, half: int) -> int {
    if v < half {
        v
    } else {
        v - 2 * half
    }
}

/// One byte at `pos`.
pub open spec fn spec_read_u8(s: Seq<u8>, pos: int) -> Parsed<u8> {
    if 0 <= pos && pos + 1 <= s.len() {
        Ok((s[pos], pos + 1))
    } else {
        Err(ParseError::TruncatedInput)
    }
}

/// An unsigned 16-bit integer at `pos`.
pub open spec fn spec_read_u16(s: Seq<u8>, pos: int, e: Endianness) -> Parsed<u16> {
    if 0 <= pos && pos + 2 <= s.len() {
        Ok((u16_at(s, pos, e) as u16, pos + 2))
    } else {
        Err(ParseError::TruncatedInput)
    }
}

/// An unsigned 32-bit integer at `pos`.
pub open spec fn spec_read_u32(s: Seq<u8>, pos: int, e: Endianness) -> Parsed<u32> {
    if 0 <= pos && pos + 4 <= s.len() {
        Ok((u32_at(s, pos, e) as u32, pos + 4))
    } else {
        Err(ParseError::TruncatedInput)
    }
}

/// An unsigned 64-bit integer at `pos`.
pub open spec fn spec_read_u64(s: Seq<u8>, pos: int, e: Endianness) -> Parsed<u64> {
    if 0 <= pos && pos + 8 <= s.len() {
        Ok((u64_at(s, pos, e) as u64, pos + 8))
    } else {
        Err(ParseError::TruncatedInput)
    }
}

/// A signed 8-bit integer at `pos`.
pub open spec fn spec_read_i8(s: Seq<u8>, pos: int) -> Parsed<i8> {
    if 0 <= pos && pos + 1 <= s.len() {
        Ok((signed(s[pos] as int, 0x80) as i8, pos + 1))
    } else {
        Err(ParseError::TruncatedInput)
    }
}

/// A signed 16-bit integer at `pos`.
pub open spec fn spec_read_i16(s: Seq<u8>, pos: int, e: Endianness) -> Parsed<i16> {
    if 0 <= pos && pos + 2 <= s.len() {
        Ok((signed(u16_at(s, pos, e), 0x8000) as i16, pos + 2))
    } else {
        Err(ParseError::TruncatedInput)
    }
}

/// A signed 32-bit integer at `pos`.
pub open spec fn spec_read_i32(s: Seq<u8>, pos: int, e: Endianness) -> Parsed<i32> {
    if 0 <= pos && pos + 4 <= s.len() {
        Ok((signed(u32_at(s, pos, e), 0x8000_0000) as i32, pos + 4))
    } else {
        Err(ParseError::TruncatedInput)
    }
}

/// A signed 64-bit integer at `pos`.
pub open spec fn spec_read_i64(s: Seq<u8>, pos: int, e: Endianness) -> Parsed<i64> {
    if 0 <= pos && pos + 8 <= s.len() {
        Ok((signed(u64_at(s, pos, e), 0x8000_0000_0000_0000) as i64, pos + 8))
    } else {
        Err(ParseError::TruncatedInput)
    }
}

/// Reads one byte.
pub fn read_u8(input: &[u8], pos: usize) -> (r: Result<(u8, usize), ParseError>)
    ensures
        agrees(r, spec_read_u8(input@, pos as int)),
{
    if pos < input.len() {
        Ok((input[pos], pos + 1))
    } else {
        Err(ParseError::TruncatedInput)
    }
}

/// Reads an unsigned 16-bit integer in the given byte order.
pub fn read_u16(input: &[u8], pos: usize, e: Endianness) -> (r: Result<(u16, usize), ParseError>)
    ensures
        agrees(r, spec_read_u16(input@, pos as int, e)),
{
    if pos <= input.len() && input.len() - pos >= 2 {
        let a = input[pos] as u16;
        let b = input[pos + 1] as u16;
        let v = match e {
            Endianness::Big => a * 0x100 + b,
            Endianness::Little => a + b * 0x100,
        };
        Ok((v, pos + 2))
    } else {
        Err(ParseError::TruncatedInput)
    }
}

/// Reads an unsigned 32-bit integer in the given byte order.
pub fn read_u32(input: &[u8], pos: usize, e: Endianness) -> (r: Result<(u32, usize), ParseError>)
    ensures
        agrees(r, spec_read_u32(input@, pos as int, e)),
{
    if pos <= input.len() && input.len() - pos >= 4 {
        let a = input[pos] as u32;
        let b = input[pos + 1] as u32;
        let c = input[pos + 2] as u32;
        let d = input[pos + 3] as u32;
        let v = match e {
            Endianness::Big => a * 0x100_0000 + b * 0x1_0000 + c * 0x100 + d,
            Endianness::Little => a + b * 0x100 + c * 0x1_0000 + d * 0x100_0000,
        };
        Ok((v, pos + 4))
    } else {
        Err(ParseError::TruncatedInput)
    }
}

/// Reads an unsigned 64-bit integer in the given byte order.
pub fn read_u64(input: &[u8], pos: usize, e: Endianness) -> (r: Result<(u64, usize), ParseError>)
    ensures
        agrees(r, spec_read_u64(input@, pos as int, e)),
{
    if pos <= input.len() && input.len() - pos >= 8 {
        let first = match read_u32(input, pos, e) {
            Ok((v, _)) => v as u64,
            Err(err) => { return Err(err); },
        };
        let second = match read_u32(input, pos + 4, e) {
            Ok((v, _)) => v as u64,
            Err(err) => { return Err(err); },
        };
        let v = match e {
            Endianness::Big => first * 0x1_0000_0000 + second,
            Endianness::Little => first + second * 0x1_0000_0000,
        };
        Ok((v, pos + 8))
    } else {
        Err(ParseError::TruncatedInput)
    }
}

/// Reads a signed 8-bit integer.
pub fn read_i8(input: &[u8], pos: usize) -> (r: Result<(i8, usize), ParseError>)
    ensures
        agrees(r, spec_read_i8(input@, pos as int)),
{
    if pos < input.len() {
        let b = input[pos];
        let v = if b < 0x80 {
            b as i8
        } else {
            (b - 0x80) as i8 - 0x40 - 0x40
        };
        Ok((v, pos + 1))
    } else {
        Err(ParseError::TruncatedInput)
    }
}

/// Reads a signed 16-bit integer in the given byte order.
pub fn read_i16(input: &[u8], pos: usize, e: Endianness) -> (r: Result<(i16, usize), ParseError>)
    ensures
        agrees(r, spec_read_i16(input@, pos as int, e)),
{
    match read_u16(input, pos, e) {
        Ok((u, next)) => {
            let v = if u < 0x8000 {
                u as i16
            } else {
                (u - 0x8000) as i16 - 0x4000 - 0x4000
            };
            Ok((v, next))
        },
        Err(err) => Err(err),
    }
}

/// Reads a signed 32-bit integer in the given byte order.
pub fn read_i32(input: &[u8], pos: usize, e: Endianness) -> (r: Result<(i32, usize), ParseError>)
    ensures
        agrees(r, spec_read_i32(input@, pos as int, e)),
{
    match read_u32(input, pos, e) {
        Ok((u, next)) => {
            let v = if u < 0x8000_0000 {
                u as i32
            } else {
                (u - 0x8000_0000) as i32 - 0x4000_0000 - 0x4000_0000
            };
            Ok((v, next))
        },
        Err(err) => Err(err),
    }
}

/// Reads a signed 64-bit integer in the given byte order.
pub fn read_i64(input: &[u8], pos: usize, e: Endianness) -> (r: Result<(i64, usize), ParseError>)
    ensures
        agrees(r, spec_read_i64(input@, pos as int, e)),
{
    match read_u64(input, pos, e) {
        Ok((u, next)) => {
            let v = if u < 0x8000_0000_0000_0000 {
                u as i64
            } else {
                (u - 0x8000_0000_0000_0000) as i64 - 0x4000_0000_0000_0000 - 0x4000_0000_0000_0000
            };
            Ok((v, next))
        },
        Err(err) => Err(err),
    }
}

/// The text that a lossy UTF-8 decoder makes of a byte string: the decoded
/// characters, with U+FFFD in place of every malformed sequence.
pub uninterp spec fn utf8_lossy(bytes: Seq<u8>) -> Seq<char>;

/// `String::from_utf8_lossy` of the standard library, made an owned string.
/// Trusted: the result is `utf8_lossy` of the bytes, and on valid UTF-8 it is
/// the decoded text itself.
#[verifier::external_body]
pub(crate) fn string_from_utf8_lossy(bytes: &[u8]) -> (s: String)
    ensures
        s@ == utf8_lossy(bytes@),
        vstd::utf8::valid_utf8(bytes@) ==> s@ == vstd::utf8::decode_utf8(bytes@),
{
    String::from_utf8_lossy(bytes).into_owned()
}

/// Whether two byte strings hold the same bytes.
pub fn bytes_eq(a: &[u8], b: &[u8]) -> (r: bool)
    ensures
        r == (a@ == b@),
{
    if a.len() != b.len() {
        return false;
    }
    let mut i: usize = 0;
    while i < a.len()
        invariant
            i <= a@.len(),
            a@.len() == b@.len(),
            a@.subrange(0, i as int) == b@.subrange(0, i as int),
        decreases a@.len() - i,
    {
        if a[i] != b[i] {
            assert(a@[i as int] != b@[i as int]);
            return false;
        }
        assert(a@.subrange(0, i + 1) =~= a@.subrange(0, i as int).push(a@[i as int]));
        assert(b@.subrange(0, i + 1) =~= b@.subrange(0, i as int).push(b@[i as int]));
        i += 1;
    }
    assert(a@ =~= a@.subrange(0, a@.len() as int));
    assert(b@ =~= b@.subrange(0, b@.len() as int));
    true
}

/// Whether two texts hold the same characters: they do exactly where their
/// UTF-8 encodings are the same bytes.
pub fn str_eq(a: &str, b: &str) -> (r: bool)
    ensures
        r == (a@ == b@),
{
    proof {
        vstd::utf8::encode_utf8_decode_utf8(a@);
        vstd::utf8::encode_utf8_decode_utf8(b@);
    }
    bytes_eq(a.as_bytes(), b.as_bytes())
}

/// The position of the first zero byte at or after `pos`, or the length of
/// the buffer when there is none.
pub open spec fn find_nul(s: Seq<u8>, pos: int) -> int
    decreases s.len() - pos,
{
    if pos < 0 || pos >= s.len() {
        s.len() as int
    } else if s[pos] == 0 {
        pos
    } else {
        find_nul(s, pos + 1)
    }
}

/// `find_nul` gives the first zero byte: it lies in the buffer at or after
/// `pos`, no byte before it is zero, and it is zero unless the buffer ended.
pub proof fn lemma_find_nul(s: Seq<u8>, pos: int)
    requires
        0 <= pos <= s.len(),
    ensures
        pos <= find_nul(s, pos) <= s.len(),
        find_nul(s, pos) < s.len() ==> s[find_nul(s, pos)] == 0,
        forall|i: int| pos <= i < find_nul(s, pos) ==> s[i] != 0,
    decreases s.len() - pos,
{
    if pos < s.len() && s[pos] != 0 {
        lemma_find_nul(s, pos + 1);
    }
}

/// A NUL-terminated string at `pos`: the text before the terminator, and
/// the position after the terminator.
pub open spec fn spec_read_cstring(s: Seq<u8>, pos: int) -> Parsed<Seq<char>> {
    if 0 <= pos <= s.len() && find_nul(s, pos) < s.len() {
        Ok((utf8_lossy(s.subrange(pos, find_nul(s, pos))), find_nul(s, pos) + 1))
    } else {
        Err(ParseError::TruncatedInput)
    }
}

/// `count` bytes at `pos`.
pub open spec fn spec_take(s: Seq<u8>, pos: int, count: int) -> Parsed<Seq<u8>> {
    if 0 <= pos && 0 <= count && pos + count <= s.len() {
        Ok((s.subrange(pos, pos + count), pos + count))
    } else {
        Err(ParseError::TruncatedInput)
    }
}

/// A string at `pos`: of `length` bytes where a length is given, else up to
/// a NUL terminator, which is consumed.
pub open spec fn spec_read_string(s: Seq<u8>, pos: int, length: Option<usize>) -> Parsed<Seq<char>> {
    match length {
        Some(n) => match spec_take(s, pos, n as int) {
            Ok((bytes, next)) => Ok((utf8_lossy(bytes), next)),
            Err(e) => Err(e),
        },
        None => spec_read_cstring(s, pos),
    }
}

/// The position at or after `pos` whose logical offset `offset + pos` is a
/// multiple of four.
pub open spec fn aligned(offset: int, pos: int) -> int {
    pos + (4 - (offset + pos) % 4) % 4
}

/// The cursor after alignment, which must still lie in a buffer of `len` bytes.
pub open spec fn spec_align(offset: int, len: int, pos: int) -> Result<int, ParseError> {
    if aligned(offset, pos) <= len {
        Ok(aligned(offset, pos))
    } else {
        Err(ParseError::TruncatedInput)
    }
}

/// An aligned cursor is the first position from `pos` on at a multiple of
/// four of the logical offset.
pub proof fn lemma_aligned(offset: int, pos: int)
    requires
        0 <= offset,
        0 <= pos,
    ensures
        pos <= aligned(offset, pos) < pos + 4,
        (offset + aligned(offset, pos)) % 4 == 0,
        (offset + pos) % 4 == 0 ==> aligned(offset, pos) == pos,
{
}

/// Takes `count` bytes as a slice of the input.
pub fn take<'a>(input: &'a [u8], pos: usize, count: usize) -> (r: Result<(&'a [u8], usize), ParseError>)
    ensures
        match r {
            Ok((bytes, next)) => spec_take(input@, pos as int, count as int) == Ok::<
                (Seq<u8>, int),
                ParseError,
            >((bytes@, next as int)),
            Err(e) => spec_take(input@, pos as int, count as int) == Err::<
                (Seq<u8>, int),
                ParseError,
            >(e),
        },
{
    if pos <= input.len() && input.len() - pos >= count {
        Ok((vstd::slice::slice_subrange(input, pos, pos + count), pos + count))
    } else {
        Err(ParseError::TruncatedInput)
    }
}

/// Reads a NUL-terminated string and steps over its terminator.
pub fn read_cstring(input: &[u8], pos: usize) -> (r: Result<(String, usize), ParseError>)
    ensures
        agrees(r, spec_read_cstring(input@, pos as int)),
{
    if pos > input.len() {
        return Err(ParseError::TruncatedInput);
    }
    let mut end = pos;
    while end < input.len() && input[end] != 0
        invariant
            pos <= end <= input.len(),
            find_nul(input@, pos as int) == find_nul(input@, end as int),
        decreases input.len() - end,
    {
        end += 1;
    }
    if end < input.len() {
        let text = string_from_utf8_lossy(vstd::slice::slice_subrange(input, pos, end));
        Ok((text, end + 1))
    } else {
        Err(ParseError::TruncatedInput)
    }
}

/// Reads a string of `length` bytes, or a NUL-terminated one where no length
/// is given.
pub fn read_string(input: &[u8], pos: usize, length: Option<usize>) -> (r: Result<
    (String, usize),
    ParseError,
>)
    ensures
        agrees(r, spec_read_string(input@, pos as int, length)),
{
    match length {
        Some(n) => match take(input, pos, n) {
            Ok((bytes, next)) => Ok((string_from_utf8_lossy(bytes), next)),
            Err(e) => Err(e),
        },
        None => read_cstring(input, pos),
    }
}

/// Moves a cursor in `base` forward to the next position whose logical
/// offset, `offset + pos`, is a multiple of four.
pub fn align(offset: u64, base: &[u8], pos: usize) -> (r: Result<usize, ParseError>)
    ensures
        match r {
            Ok(next) => spec_align(offset as int, base@.len() as int, pos as int) == Ok::<
                int,
                ParseError,
            >(next as int),
            Err(e) => spec_align(offset as int, base@.len() as int, pos as int) == Err::<
                int,
                ParseError,
            >(e),
        },
{
    let phase = ((offset % 4) as usize + pos % 4) % 4;
    let pad = (4 - phase) % 4;
    if pos <= base.len() && base.len() - pos >= pad {
        Ok(pos + pad)
    } else {
        Err(ParseError::TruncatedInput)
    }
}

} // verus!

verus! {

/// `count` items in a row, each read by `item` where the one before ended.
pub open spec fn spec_repeat<T>(
    item: spec_fn(Seq<u8>, int) -> Parsed<T>,
    s: Seq<u8>,
    pos: int,
    count: int,
) -> Parsed<Seq<T>>
    decreases count,
{
    if count <= 0 {
        Ok((Seq::empty(), pos))
    } else {
        match spec_repeat(item, s, pos, count - 1) {
            Err(e) => Err(e),
            Ok((items, next)) => match item(s, next) {
                Err(e) => Err(e),
                Ok((value, after)) => Ok((items.push(value), after)),
            },
        }
    }
}

/// Where the first `i` items cannot be read, no larger number can, and the
/// error is the same.
pub proof fn lemma_repeat_fails<T>(
    item: spec_fn(Seq<u8>, int) -> Parsed<T>,
    s: Seq<u8>,
    pos: int,
    i: int,
    count: int,
)
    requires
        i <= count,
        spec_repeat(item, s, pos, i) is Err,
    ensures
        spec_repeat(item, s, pos, count) == spec_repeat(item, s, pos, i),
    decreases count - i,
{
    if i < count {
        lemma_repeat_fails(item, s, pos, i, count - 1);
    }
}

} // verus!
