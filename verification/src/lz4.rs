//! LZ4 block decoding.
//!
//! A block is a run of sequences. Each sequence is a token, an optional chain
//! of extra literal-length bytes, the literal bytes, and, unless the input ends
//! there, a two-byte little-endian match offset with an optional chain of extra
//! match-length bytes. The shortest match is four bytes long.

use vstd::prelude::*;
use crate::error::Lz4Error;

verus! {

/// The shortest match that a sequence can ask for.
pub const MIN_MATCH_LEN: u128 = 4;

/// No match of a sequence read from a buffer is this long.
pub const MATCH_LEN_LIMIT: u128 = 0x1_0000_0000_0000_0000_0000;

/// The position of the first byte other than 0xFF at or after `pos`, or the
/// length of the buffer when there is none.
pub open spec fn chain_end(s: Seq<u8>, pos: int) -> int
    decreases s.len() - pos,
{
    if pos < 0 || pos >= s.len() {
        s.len() as int
    } else if s[pos] != 0xff {
        pos
    } else {
        chain_end(s, pos + 1)
    }
}

/// `chain_end` lies in the buffer at or after `pos`, and every byte before
/// it is 0xFF.
pub proof fn lemma_chain_end(s: Seq<u8>, pos: int)
    requires
        0 <= pos <= s.len(),
    ensures
        pos <= chain_end(s, pos) <= s.len(),
        chain_end(s, pos) < s.len() ==> s[chain_end(s, pos)] != 0xff,
        forall|i: int| pos <= i < chain_end(s, pos) ==> s[i] == 0xff,
    decreases s.len() - pos,
{
    if pos < s.len() && s[pos] == 0xff {
        lemma_chain_end(s, pos + 1);
    }
}

/// A length that starts as the four-bit `nibble` of a token. Below 15 it is
/// the nibble itself. At 15 it goes on at `pos`: 255 for every 0xFF byte, then
/// the first other byte, which ends it. Gives the length and the position
/// after it, or nothing when the buffer ends inside the chain.
pub open spec fn spec_length(s: Seq<u8>, pos: int, nibble: int) -> Option<(int, int)> {
    if nibble != 15 {
        Some((nibble, pos))
    } else if chain_end(s, pos) < s.len() {
        Some((15 + 255 * (chain_end(s, pos) - pos) + s[chain_end(s, pos)] as int, chain_end(s, pos) + 1))
    } else {
        None
    }
}

/// What one sequence asks for: literal bytes to append, then an optional
/// match, given as how far to look back and how many bytes to repeat.
pub struct SequenceView {
    pub literal: Seq<u8>,
    pub match_copy: Option<(int, int)>,
}

impl SequenceView {
    /// The number of bytes by which the sequence makes the output longer.
    pub open spec fn len(self) -> int {
        self.literal.len() + (match self.match_copy {
            Some((_, length)) => length,
            None => 0,
        })
    }
}

/// The sequence that starts at `pos`, with `produced` bytes of output before
/// it, and the position after it.
pub open spec fn spec_sequence(s: Seq<u8>, pos: int, produced: int) -> Result<
    (SequenceView, int),
    Lz4Error,
> {
    let token = s[pos] as int;
    match spec_length(s, pos + 1, token / 16) {
        None => Err(Lz4Error::UnexpectedEnd),
        Some((lit_len, lit_start)) => {
            let after = lit_start + lit_len;
            let literal = s.subrange(lit_start, after);
            if after > s.len() {
                Err(Lz4Error::UnexpectedEnd)
            } else if after == s.len() {
                Ok((SequenceView { literal, match_copy: None }, after))
            } else if after + 2 > s.len() {
                Err(Lz4Error::UnexpectedEnd)
            } else {
                let offset = s[after] as int + s[after + 1] as int * 0x100;
                if offset == 0 || offset > produced + lit_len {
                    Err(Lz4Error::InvalidLookback)
                } else {
                    match spec_length(s, after + 2, token % 16) {
                        None => Err(Lz4Error::UnexpectedEnd),
                        Some((extra, next)) => Ok(
                            (SequenceView { literal, match_copy: Some((offset, extra + 4)) }, next),
                        ),
                    }
                }
            }
        },
    }
}

/// The output after `n` more bytes were repeated from `offset` bytes back,
/// one at a time, so that a match may run into the bytes it has just written.
pub open spec fn copy_match(out: Seq<u8>, offset: int, n: int) -> Seq<u8>
    decreases n,
{
    if n <= 0 {
        out
    } else {
        copy_match(out.push(out[out.len() - offset]), offset, n - 1)
    }
}

/// The output after one sequence.
pub open spec fn apply_sequence(out: Seq<u8>, seq: SequenceView) -> Seq<u8> {
    match seq.match_copy {
        None => out + seq.literal,
        Some((offset, length)) => copy_match(out + seq.literal, offset, length),
    }
}

/// A sequence ends after the position it starts at, and is at most 275 times
/// as long as the input it takes.
pub proof fn lemma_sequence_bounds(s: Seq<u8>, pos: int, produced: int)
    requires
        0 <= pos < s.len(),
    ensures
        match spec_sequence(s, pos, produced) {
            Ok((seq, next)) => {
                &&& pos < next <= s.len()
                &&& 0 <= seq.len() <= 275 * (next - pos)
                &&& seq.match_copy matches Some((offset, length)) ==> 0 < offset <= produced
                    + seq.literal.len() && 4 <= length <= 19 + 255 * (next - pos)
            },
            Err(_) => true,
        },
{
    lemma_chain_end(s, pos + 1);
    let token = s[pos] as int;
    match spec_length(s, pos + 1, token / 16) {
        None => {},
        Some((lit_len, lit_start)) => {
            let after = lit_start + lit_len;
            if after + 2 <= s.len() {
                lemma_chain_end(s, after + 2);
            }
        },
    }
}

/// The decoded output of the sequences from `pos` on, appended to `out`.
pub open spec fn spec_decode_from(s: Seq<u8>, pos: int, out: Seq<u8>) -> Result<Seq<u8>, Lz4Error>
    decreases s.len() - pos,
{
    if pos < 0 || pos >= s.len() {
        Ok(out)
    } else {
        match spec_sequence(s, pos, out.len() as int) {
            Err(e) => Err(e),
            Ok((seq, next)) => {
                proof {
                    lemma_sequence_bounds(s, pos, out.len() as int);
                }
                spec_decode_from(s, next, apply_sequence(out, seq))
            },
        }
    }
}

/// The decoded output of a block.
pub open spec fn spec_decode(s: Seq<u8>) -> Result<Seq<u8>, Lz4Error> {
    spec_decode_from(s, 0, Seq::empty())
}

/// The length that the sequences from `pos` on declare for the output, found
/// without producing it: `produced` plus the length of every sequence.
pub open spec fn spec_declared_len(s: Seq<u8>, pos: int, produced: int) -> Result<int, Lz4Error>
    decreases s.len() - pos,
{
    if pos < 0 || pos >= s.len() {
        Ok(produced)
    } else {
        match spec_sequence(s, pos, produced) {
            Err(e) => Err(e),
            Ok((seq, next)) => {
                proof {
                    lemma_sequence_bounds(s, pos, produced);
                }
                spec_declared_len(s, next, produced + seq.len())
            },
        }
    }
}

/// Repeating `n` bytes makes the output `n` bytes longer.
pub proof fn lemma_copy_match_len(out: Seq<u8>, offset: int, n: int)
    requires
        0 <= n,
    ensures
        copy_match(out, offset, n).len() == out.len() + n,
    decreases n,
{
    if n > 0 {
        lemma_copy_match_len(out.push(out[out.len() - offset]), offset, n - 1);
    }
}

/// A block decodes to exactly as many bytes as its sequences declare, and
/// fails exactly where finding that length fails, with the same error.
pub proof fn lemma_decoded_len(s: Seq<u8>, pos: int, out: Seq<u8>)
    requires
        0 <= pos,
    ensures
        match spec_decode_from(s, pos, out) {
            Ok(decoded) => spec_declared_len(s, pos, out.len() as int) == Ok::<int, Lz4Error>(
                decoded.len() as int,
            ),
            Err(e) => spec_declared_len(s, pos, out.len() as int) == Err::<int, Lz4Error>(e),
        },
    decreases s.len() - pos,
{
    if pos < s.len() {
        match spec_sequence(s, pos, out.len() as int) {
            Err(e) => {},
            Ok((seq, next)) => {
                lemma_sequence_bounds(s, pos, out.len() as int);
                match seq.match_copy {
                    None => {},
                    Some((offset, length)) => {
                        lemma_copy_match_len(out + seq.literal, offset, length);
                    },
                }
                lemma_decoded_len(s, next, apply_sequence(out, seq));
            },
        }
    }
}

/// How far back a match starts and how many bytes it repeats.
#[derive(Copy, Clone, Debug)]
pub struct MatchCopyInfo {
    pub offset: u16,
    pub length: u128,
}

/// One sequence of a block: its literal bytes and its match, if it has one.
#[derive(Debug)]
pub struct Sequence<'a> {
    pub literal: &'a [u8],
    pub match_copy: Option<MatchCopyInfo>,
}

impl<'a> View for Sequence<'a> {
    type V = SequenceView;

    open spec fn view(&self) -> SequenceView {
        SequenceView {
            literal: self.literal@,
            match_copy: match self.match_copy {
                Some(m) => Some((m.offset as int, m.length as int)),
                None => None,
            },
        }
    }
}

impl<'a> Sequence<'a> {
    /// The match, where there is one, is shorter than `MATCH_LEN_LIMIT`.
    pub open spec fn wf(&self) -> bool {
        self.match_copy matches Some(m) ==> m.length < MATCH_LEN_LIMIT
    }

    /// The number of bytes by which the sequence makes the output longer.
    pub fn len(&self) -> (n: u128)
        requires
            self.wf(),
        ensures
            n == self@.len(),
    {
        let literal = self.literal.len() as u128;
        match self.match_copy {
            Some(m) => literal + m.length,
            None => literal,
        }
    }
}

/// A cursor over the sequences of a block.
#[derive(Debug)]
pub struct Sequences<'a> {
    pub input: &'a [u8],
    pub pos: usize,
    pub output_length: u128,
}

/// Reads a length that starts as `nibble`, going on at `pos` when it is 15.
fn read_length(input: &[u8], pos: usize, nibble: u8) -> (r: Option<(u128, usize)>)
    requires
        pos <= input@.len(),
        nibble <= 15,
    ensures
        match r {
            Some((v, next)) => spec_length(input@, pos as int, nibble as int) == Some(
                (v as int, next as int),
            ) && pos <= next <= input@.len() && v <= 15 + 255 * (next - pos),
            None => spec_length(input@, pos as int, nibble as int) is None,
        },
{
    if nibble != 15 {
        return Some((nibble as u128, pos));
    }
    let mut end = pos;
    let mut value: u128 = 15;
    while end < input.len() && input[end] == 0xff
        invariant
            pos <= end <= input@.len(),
            value == 15 + 255 * (end - pos),
            chain_end(input@, pos as int) == chain_end(input@, end as int),
        decreases input@.len() - end,
    {
        end += 1;
        value += 255;
    }
    if end < input.len() {
        Some((value + input[end] as u128, end + 1))
    } else {
        None
    }
}

impl<'a> Sequences<'a> {
    /// The cursor lies in the input, and the output length it has counted is
    /// what that much input can declare.
    pub open spec fn wf(&self) -> bool {
        &&& self.pos <= self.input@.len()
        &&& self.output_length <= 275 * self.pos
    }

    /// A cursor at the start of a block.
    pub fn new(input: &'a [u8]) -> (r: Sequences<'a>)
        ensures
            r.wf(),
            r.input@ == input@,
            r.pos == 0,
            r.output_length == 0,
    {
        Sequences { input, pos: 0, output_length: 0 }
    }

    /// The next sequence, or nothing at the end of the input. After an error
    /// the cursor stays where it was.
    pub fn next(&mut self) -> (r: Option<Result<Sequence<'a>, Lz4Error>>)
        requires
            old(self).wf(),
        ensures
            final(self).wf(),
            final(self).input@ == old(self).input@,
            match r {
                None => old(self).pos == old(self).input@.len() && *final(self) == *old(self),
                Some(Err(e)) => old(self).pos < old(self).input@.len() && spec_sequence(
                    old(self).input@,
                    old(self).pos as int,
                    old(self).output_length as int,
                ) == Err::<(SequenceView, int), Lz4Error>(e) && *final(self) == *old(self),
                Some(Ok(seq)) => old(self).pos < old(self).input@.len() && spec_sequence(
                    old(self).input@,
                    old(self).pos as int,
                    old(self).output_length as int,
                ) == Ok::<(SequenceView, int), Lz4Error>((seq@, final(self).pos as int)) && seq.wf()
                    && final(self).output_length == old(self).output_length + seq@.len(),
            },
    {
        let input = self.input;
        if self.pos >= input.len() {
            return None;
        }
        proof {
            lemma_sequence_bounds(input@, self.pos as int, self.output_length as int);
        }
        let token = input[self.pos];
        let (lit_len, lit_start) = match read_length(input, self.pos + 1, token / 16) {
            Some(found) => found,
            None => {
                return Some(Err(Lz4Error::UnexpectedEnd));
            },
        };
        if lit_len > (input.len() - lit_start) as u128 {
            return Some(Err(Lz4Error::UnexpectedEnd));
        }
        let after = lit_start + lit_len as usize;
        let literal = vstd::slice::slice_subrange(input, lit_start, after);
        if after == input.len() {
            self.pos = after;
            self.output_length = self.output_length + lit_len;
            return Some(Ok(Sequence { literal, match_copy: None }));
        }
        if input.len() - after < 2 {
            return Some(Err(Lz4Error::UnexpectedEnd));
        }
        let offset: u16 = input[after] as u16 + input[after + 1] as u16 * 0x100;
        if offset == 0 || offset as u128 > self.output_length + lit_len {
            return Some(Err(Lz4Error::InvalidLookback));
        }
        let (extra, next) = match read_length(input, after + 2, token % 16) {
            Some(found) => found,
            None => {
                return Some(Err(Lz4Error::UnexpectedEnd));
            },
        };
        let length = extra + MIN_MATCH_LEN;
        self.pos = next;
        self.output_length = self.output_length + lit_len + length;
        Some(Ok(Sequence { literal, match_copy: Some(MatchCopyInfo { offset, length }) }))
    }
}

/// Appends `bytes` to `out`.
fn append_bytes(out: &mut Vec<u8>, bytes: &[u8])
    ensures
        final(out)@ == old(out)@ + bytes@,
{
    let mut i: usize = 0;
    while i < bytes.len()
        invariant
            i <= bytes@.len(),
            out@ == old(out)@ + bytes@.subrange(0, i as int),
        decreases bytes@.len() - i,
    {
        out.push(bytes[i]);
        i += 1;
    }
}

/// Repeats `length` bytes of `out` from `offset` bytes back.
fn append_match(out: &mut Vec<u8>, offset: u16, length: u128)
    requires
        0 < offset <= old(out)@.len(),
    ensures
        final(out)@ == copy_match(old(out)@, offset as int, length as int),
{
    let mut k: u128 = 0;
    while k < length
        invariant
            k <= length,
            0 < offset <= out@.len(),
            copy_match(out@, offset as int, length - k) == copy_match(
                old(out)@,
                offset as int,
                length as int,
            ),
        decreases length - k,
    {
        let byte = out[out.len() - offset as usize];
        out.push(byte);
        k += 1;
    }
}

/// Decodes one LZ4 block.
///
/// The result is the output of all sequences in order. It is as long as the
/// sequences declare. The error is that of the first sequence that cannot be
/// read: `UnexpectedEnd` where the input stops inside it, `InvalidLookback`
/// where its match offset is zero or larger than the output so far.
pub fn decode_block(input: &[u8]) -> (r: Result<Vec<u8>, Lz4Error>)
    ensures
        match r {
            Ok(out) => spec_decode(input@) == Ok::<Seq<u8>, Lz4Error>(out@) && spec_declared_len(
                input@,
                0,
                0,
            ) == Ok::<int, Lz4Error>(out@.len() as int),
            Err(e) => spec_decode(input@) == Err::<Seq<u8>, Lz4Error>(e),
        },
{
    let mut sequences = Sequences::new(input);
    let mut out: Vec<u8> = Vec::new();
    loop
        invariant
            sequences.wf(),
            sequences.input@ == input@,
            sequences.output_length == out@.len(),
            spec_decode(input@) == spec_decode_from(input@, sequences.pos as int, out@),
        decreases input@.len() - sequences.pos,
    {
        let ghost before = sequences.pos as int;
        proof {
            if before < input@.len() {
                lemma_sequence_bounds(input@, before, out@.len() as int);
            }
        }
        match sequences.next() {
            None => {
                proof {
                    lemma_decoded_len(input@, 0, Seq::empty());
                }
                return Ok(out);
            },
            Some(Err(e)) => {
                return Err(e);
            },
            Some(Ok(seq)) => {
                let ghost start = out@;
                append_bytes(&mut out, seq.literal);
                match seq.match_copy {
                    Some(m) => {
                        append_match(&mut out, m.offset, m.length);
                        proof {
                            lemma_copy_match_len(start + seq.literal@, m.offset as int, m.length as int);
                        }
                    },
                    None => {},
                }
                assert(out@ == apply_sequence(start, seq@));
            },
        }
    }
}

} // verus!
