//! Compressed blocks and the storage that lays them out as one flat space.
//!
//! The data region of a container is a run of blocks. Decompressed and put
//! end to end they form a virtual address space. The storage reserves that
//! space up front and fills in a block the first time a read touches it.

use vstd::prelude::*;
use std::ops::Range;
use crate::error::ParseError;
use crate::lz4::decode_block;
use crate::lz4::spec_decode;

verus! {

/// Compression schemes that a block may name.
#[derive(Copy, Clone, Debug, PartialEq, Eq, Hash, Structural)]
pub enum CompressionType {
    Lzma,
    Lz4,
    Lz4Hc,
    Lzham,
}

/// The scheme that a compression number stands for. Zero, and every number
/// above 4, is stored data.
pub open spec fn spec_compression(val: u32) -> Option<CompressionType> {
    if val == 1 {
        Some(CompressionType::Lzma)
    } else if val == 2 {
        Some(CompressionType::Lz4)
    } else if val == 3 {
        Some(CompressionType::Lz4Hc)
    } else if val == 4 {
        Some(CompressionType::Lzham)
    } else {
        None
    }
}

/// What a block of the given scheme expands to. LZMA and LZHAM are not
/// implemented.
pub open spec fn spec_decompress(compression: Option<CompressionType>, block: Seq<u8>) -> Result<
    Seq<u8>,
    ParseError,
> {
    match compression {
        None => Ok(block),
        Some(CompressionType::Lz4) | Some(CompressionType::Lz4Hc) => match spec_decode(block) {
            Ok(out) => Ok(out),
            Err(e) => Err(ParseError::Lz4BadStream(e)),
        },
        Some(_) => Err(ParseError::UnsupportedCompression),
    }
}

impl CompressionType {
    /// The scheme of a compression number.
    pub fn from_u32(val: u32) -> (r: Option<CompressionType>)
        ensures
            r == spec_compression(val),
    {
        match val {
            1 => Some(CompressionType::Lzma),
            2 => Some(CompressionType::Lz4),
            3 => Some(CompressionType::Lz4Hc),
            4 => Some(CompressionType::Lzham),
            _ => None,
        }
    }

    /// Expands `data`. Only LZ4 and LZ4HC are implemented.
    pub fn decompress(self, data: &[u8]) -> (r: Result<Vec<u8>, ParseError>)
        ensures
            match r {
                Ok(out) => spec_decompress(Some(self), data@) == Ok::<Seq<u8>, ParseError>(out@),
                Err(e) => spec_decompress(Some(self), data@) == Err::<Seq<u8>, ParseError>(e),
            },
    {
        match self {
            CompressionType::Lz4 | CompressionType::Lz4Hc => match decode_block(data) {
                Ok(out) => Ok(out),
                Err(e) => Err(ParseError::Lz4BadStream(e)),
            },
            _ => Err(ParseError::UnsupportedCompression),
        }
    }
}

/// A block as plain values.
pub struct BlockView {
    pub u_size: u32,
    pub compression: Option<CompressionType>,
    pub block: Seq<u8>,
}

impl BlockView {
    /// The bytes of the block once expanded. A block that expands to another
    /// length than it declares is an error.
    pub open spec fn content(self) -> Result<Seq<u8>, ParseError> {
        match spec_decompress(self.compression, self.block) {
            Ok(out) => if out.len() == self.u_size {
                Ok(out)
            } else {
                Err(ParseError::Lz4SizeMismatch)
            },
            Err(e) => Err(e),
        }
    }

    /// The bytes that the block puts into the virtual space: its content, or
    /// zeros where it has none.
    pub open spec fn bytes(self) -> Seq<u8> {
        match self.content() {
            Ok(out) => out,
            Err(_) => Seq::new(self.u_size as nat, |i: int| 0u8),
        }
    }
}

/// One block of a container: its declared size, its scheme and its raw bytes.
#[derive(Debug)]
pub struct CompressedBlock<'a> {
    u_size: u32,
    compression: Option<CompressionType>,
    block: &'a [u8],
}

impl<'a> View for CompressedBlock<'a> {
    type V = BlockView;

    closed spec fn view(&self) -> BlockView {
        BlockView { u_size: self.u_size, compression: self.compression, block: self.block@ }
    }
}

impl<'a> CompressedBlock<'a> {
    /// A block of `uncompressed_size` bytes, stored in `block` under the scheme
    /// with number `compression_type_id`.
    pub fn from_slice(uncompressed_size: u32, compression_type_id: u32, block: &'a [u8]) -> (r:
        CompressedBlock<'a>)
        ensures
            r@ == (BlockView {
                u_size: uncompressed_size,
                compression: spec_compression(compression_type_id),
                block: block@,
            }),
    {
        CompressedBlock {
            u_size: uncompressed_size,
            compression: CompressionType::from_u32(compression_type_id),
            block,
        }
    }

    /// The size that the block declares for its content.
    pub fn uncompressed_size(&self) -> (r: u32)
        ensures
            r == self@.u_size,
    {
        self.u_size
    }

    /// Expands the block. The length of the result is not held against the
    /// declared size here.
    pub fn decompress(&self) -> (r: Result<Vec<u8>, ParseError>)
        ensures
            match r {
                Ok(out) => spec_decompress(self@.compression, self@.block) == Ok::<
                    Seq<u8>,
                    ParseError,
                >(out@),
                Err(e) => spec_decompress(self@.compression, self@.block) == Err::<
                    Seq<u8>,
                    ParseError,
                >(e),
            },
    {
        match self.compression {
            None => Ok(vstd::slice::slice_to_vec(self.block)),
            Some(compression) => compression.decompress(self.block),
        }
    }
}

/// The views of a list of blocks.
pub open spec fn block_views<'a>(blocks: Seq<CompressedBlock<'a>>) -> Seq<BlockView> {
    blocks.map_values(|b: CompressedBlock<'a>| b@)
}

/// The sum of the declared sizes of the first `n` blocks: the base offset of
/// block `n` in the virtual space.
pub open spec fn offset_of(blocks: Seq<BlockView>, n: int) -> int
    decreases n,
{
    if n <= 0 {
        0
    } else {
        offset_of(blocks, n - 1) + blocks[n - 1].u_size
    }
}

/// The length of the virtual space.
pub open spec fn total_size(blocks: Seq<BlockView>) -> int {
    offset_of(blocks, blocks.len() as int)
}

/// The virtual space made of the first `n` blocks.
pub open spec fn space_of(blocks: Seq<BlockView>, n: int) -> Seq<u8>
    decreases n,
{
    if n <= 0 {
        Seq::empty()
    } else {
        space_of(blocks, n - 1) + blocks[n - 1].bytes()
    }
}

/// The virtual space: the bytes of all blocks end to end.
pub open spec fn virtual_space(blocks: Seq<BlockView>) -> Seq<u8> {
    space_of(blocks, blocks.len() as int)
}

/// Block `i` holds bytes of the range from `start` to `end`: it is one of the
/// blocks from the last that begins at or before `start` to the last that
/// begins before `end`.
pub open spec fn touched(blocks: Seq<BlockView>, i: int, start: int, end: int) -> bool {
    &&& 0 <= i < blocks.len()
    &&& start < end
    &&& offset_of(blocks, i) < end
    &&& (i + 1 == blocks.len() || offset_of(blocks, i + 1) > start)
}

/// The first block from `i` on that the range touches and that cannot be
/// expanded.
pub open spec fn first_bad(blocks: Seq<BlockView>, i: int, start: int, end: int) -> Option<int>
    decreases blocks.len() - i,
{
    if i < 0 || i >= blocks.len() {
        None
    } else if touched(blocks, i, start, end) && blocks[i].content() is Err {
        Some(i)
    } else {
        first_bad(blocks, i + 1, start, end)
    }
}

/// What a read of the range from `start` to `end` gives: the bytes of the
/// virtual space, or the error of the first touched block that cannot be
/// expanded. A range that does not lie in the space is truncated input.
pub open spec fn read_result(blocks: Seq<BlockView>, start: int, end: int) -> Result<
    Seq<u8>,
    ParseError,
> {
    if !(0 <= start <= end <= total_size(blocks)) {
        Err(ParseError::TruncatedInput)
    } else {
        match first_bad(blocks, 0, start, end) {
            Some(i) => Err(blocks[i].content()->Err_0),
            None => Ok(virtual_space(blocks).subrange(start, end)),
        }
    }
}

/// Which blocks are expanded after a read: those that were, and the touched
/// ones before the first that cannot be expanded.
pub open spec fn flags_after(blocks: Seq<BlockView>, flags: Seq<bool>, start: int, end: int) -> Seq<
    bool,
> {
    Seq::new(
        flags.len(),
        |i: int|
            flags[i] || (0 <= start <= end <= total_size(blocks) && touched(blocks, i, start, end)
                && match first_bad(blocks, 0, start, end) {
                Some(bad) => i < bad,
                None => true,
            }),
    )
}

/// The number of blocks among the first `n` that are expanded.
pub open spec fn count_ready(flags: Seq<bool>, n: int) -> int
    decreases n,
{
    if n <= 0 {
        0
    } else {
        count_ready(flags, n - 1) + if flags[n - 1] {
            1int
        } else {
            0int
        }
    }
}

/// Reading a range again gives the same bytes and expands no block: the
/// result depends on the blocks and the range alone, and the blocks that the
/// first read left expanded stay exactly those.
pub proof fn lemma_read_range_idempotent(
    blocks: Seq<BlockView>,
    flags: Seq<bool>,
    start: int,
    end: int,
)
    requires
        flags.len() == blocks.len(),
    ensures
        flags_after(blocks, flags_after(blocks, flags, start, end), start, end) == flags_after(
            blocks,
            flags,
            start,
            end,
        ),
        count_ready(
            flags_after(blocks, flags_after(blocks, flags, start, end), start, end),
            blocks.len() as int,
        ) == count_ready(flags_after(blocks, flags, start, end), blocks.len() as int),
{
    assert(flags_after(blocks, flags_after(blocks, flags, start, end), start, end) =~= flags_after(
        blocks,
        flags,
        start,
        end,
    ));
}

/// Base offsets do not decrease from block to block.
pub proof fn lemma_offsets_monotonic(blocks: Seq<BlockView>, i: int, j: int)
    requires
        0 <= i <= j,
    ensures
        0 <= offset_of(blocks, i) <= offset_of(blocks, j),
    decreases j,
{
    if j > 0 {
        if i < j {
            lemma_offsets_monotonic(blocks, i, j - 1);
        } else {
            lemma_offsets_monotonic(blocks, i - 1, j - 1);
        }
    }
}

/// The virtual space of `n` blocks is as long as their sizes add up to, and
/// holds the bytes of each block at its base offset.
pub proof fn lemma_space(blocks: Seq<BlockView>, n: int)
    requires
        0 <= n <= blocks.len(),
    ensures
        space_of(blocks, n).len() == offset_of(blocks, n),
        forall|i: int, k: int|
            0 <= i < n && 0 <= k < blocks[i].u_size ==> #[trigger] space_of(blocks, n)[offset_of(
                blocks,
                i,
            ) + k] == blocks[i].bytes()[k],
    decreases n,
{
    if n > 0 {
        lemma_space(blocks, n - 1);
        assert forall|i: int, k: int| 0 <= i < n && 0 <= k < blocks[i].u_size implies #[trigger] space_of(
            blocks,
            n,
        )[offset_of(blocks, i) + k] == blocks[i].bytes()[k] by {
            lemma_offsets_monotonic(blocks, i, n - 1);
            if i < n - 1 {
                lemma_offsets_monotonic(blocks, i + 1, n - 1);
            }
        }
    }
}

/// Every offset of the space between the base of block `a` and the end of
/// block `b` lies in one of the blocks from `a` to `b`.
pub proof fn lemma_block_of(blocks: Seq<BlockView>, a: int, b: int, k: int) -> (j: int)
    requires
        0 <= a <= b < blocks.len(),
        offset_of(blocks, a) <= k < offset_of(blocks, b + 1),
    ensures
        a <= j <= b,
        offset_of(blocks, j) <= k < offset_of(blocks, j) + blocks[j].u_size,
    decreases b - a,
{
    if k >= offset_of(blocks, b) {
        b
    } else {
        lemma_block_of(blocks, a, b - 1, k)
    }
}

/// Setting the flag of a block that was not expanded makes the count of
/// expanded blocks one larger.
pub proof fn lemma_count_set(flags: Seq<bool>, i: int, n: int)
    requires
        0 <= i < flags.len(),
        0 <= n <= flags.len(),
        !flags[i],
    ensures
        count_ready(flags.update(i, true), n) == count_ready(flags, n) + if i < n {
            1int
        } else {
            0int
        },
    decreases n,
{
    if n > 0 {
        lemma_count_set(flags, i, n - 1);
    }
}

/// The blocks of a container laid out as one virtual space, expanded on
/// demand into a buffer that is reserved up front.
#[derive(Debug)]
pub struct CompressedBlockStorage<'a> {
    blocks: Vec<CompressedBlock<'a>>,
    offsets: Vec<u64>,
    ready: Vec<bool>,
    buf: Vec<u8>,
    materialized: usize,
}

impl<'a> CompressedBlockStorage<'a> {
    /// The blocks, in order.
    pub closed spec fn blocks(&self) -> Seq<BlockView> {
        block_views(self.blocks@)
    }

    /// For each block, whether it has been expanded.
    pub closed spec fn ready(&self) -> Seq<bool> {
        self.ready@
    }

    /// How many times a block has been expanded into the buffer.
    pub closed spec fn materialized(&self) -> int {
        self.materialized as int
    }

    /// The storage is consistent: each block has its base offset and its
    /// flag, the buffer spans the virtual space, every expanded block has its
    /// content in place, and each was expanded once.
    pub closed spec fn wf(&self) -> bool {
        &&& self.offsets@.len() == self.blocks@.len()
        &&& self.ready@.len() == self.blocks@.len()
        &&& self.buf@.len() == total_size(self.blocks())
        &&& forall|i: int|
            0 <= i < self.offsets@.len() ==> #[trigger] self.offsets@[i] == offset_of(
                self.blocks(),
                i,
            )
        &&& forall|i: int|
            0 <= i < self.ready@.len() && #[trigger] self.ready@[i] ==> self.blocks()[i].content()
                == Ok::<Seq<u8>, ParseError>(
                self.buf@.subrange(
                    offset_of(self.blocks(), i),
                    offset_of(self.blocks(), i) + self.blocks()[i].u_size,
                ),
            )
        &&& self.materialized == count_ready(self.ready@, self.ready@.len() as int)
    }

    /// Lays the blocks out and reserves the buffer; no block is expanded yet.
    /// Fails with `BadHeader` where the sizes add up to more than can be
    /// addressed.
    #[verifier::loop_isolation(false)]
    pub fn from_blocks(blocks: Vec<CompressedBlock<'a>>) -> (r: Result<
        CompressedBlockStorage<'a>,
        ParseError,
    >)
        ensures
            match r {
                Ok(storage) => {
                    &&& storage.wf()
                    &&& storage.blocks() == block_views(blocks@)
                    &&& storage.ready() == Seq::new(blocks@.len(), |i: int| false)
                    &&& storage.materialized() == 0
                    &&& total_size(storage.blocks()) <= usize::MAX
                },
                Err(e) => e == ParseError::BadHeader && total_size(
                    block_views(blocks@),
                ) > usize::MAX,
            },
    {
        let ghost views = block_views(blocks@);
        let mut offsets: Vec<u64> = Vec::new();
        let mut ready: Vec<bool> = Vec::new();
        let mut total: u64 = 0;
        let mut i: usize = 0;
        while i < blocks.len()
            invariant
                i <= blocks@.len(),
                views == block_views(blocks@),
                offsets@.len() == i,
                ready@.len() == i,
                ready@ == Seq::new(i as nat, |k: int| false),
                total == offset_of(views, i as int),
                total <= usize::MAX,
                forall|k: int| 0 <= k < i ==> #[trigger] offsets@[k] == offset_of(views, k),
            decreases blocks@.len() - i,
        {
            let size = blocks[i].uncompressed_size() as u64;
            if size > u64::MAX - total || total + size > usize::MAX as u64 {
                proof {
                    lemma_offsets_monotonic(views, i + 1, views.len() as int);
                }
                return Err(ParseError::BadHeader);
            }
            offsets.push(total);
            ready.push(false);
            total = total + size;
            i += 1;
        }
        let buf = vec![0u8; total as usize];
        proof {
            lemma_count_bounds(ready@, ready@.len() as int);
        }
        Ok(CompressedBlockStorage { blocks, offsets, ready, buf, materialized: 0 })
    }

    /// The last block that begins at or before `pos`.
    fn find_block(&self, pos: u64) -> (r: usize)
        requires
            self.wf(),
            self.blocks().len() > 0,
        ensures
            r < self.blocks().len(),
            offset_of(self.blocks(), r as int) <= pos,
            r + 1 == self.blocks().len() || offset_of(self.blocks(), r + 1) > pos,
    {
        let mut lo: usize = 0;
        let mut hi: usize = self.offsets.len();
        while hi - lo > 1
            invariant
                self.wf(),
                lo < hi <= self.offsets@.len(),
                offset_of(self.blocks(), lo as int) <= pos,
                hi == self.offsets@.len() || offset_of(self.blocks(), hi as int) > pos,
            decreases hi - lo,
        {
            let mid = lo + (hi - lo) / 2;
            if self.offsets[mid] <= pos {
                lo = mid;
            } else {
                hi = mid;
            }
        }
        lo
    }

    /// Expands block `i` into its place in the buffer, unless it is there.
    #[verifier::loop_isolation(false)]
    fn materialize(&mut self, i: usize) -> (r: Result<(), ParseError>)
        requires
            old(self).wf(),
            i < old(self).blocks().len(),
        ensures
            final(self).wf(),
            final(self).blocks() == old(self).blocks(),
            match r {
                Ok(()) => old(self).blocks()[i as int].content() is Ok && final(self).ready()
                    == old(self).ready().update(i as int, true),
                Err(e) => old(self).blocks()[i as int].content() == Err::<Seq<u8>, ParseError>(e)
                    && final(self).ready() == old(self).ready(),
            },
    {
        if self.ready[i] {
            assert(self.ready@ =~= self.ready@.update(i as int, true));
            return Ok(());
        }
        let block = match self.blocks[i].decompress() {
            Ok(block) => block,
            Err(e) => {
                return Err(e);
            },
        };
        if block.len() != self.blocks[i].uncompressed_size() as usize {
            return Err(ParseError::Lz4SizeMismatch);
        }
        let ghost views = self.blocks();
        let ghost before = self.buf@;
        assert(self.buf@.len() == self.buf.len());
        assert(self.ready@.len() == self.ready.len());
        proof {
            lemma_count_bounds(self.ready@, self.ready@.len() as int);
            lemma_offsets_monotonic(views, 0, i as int);
            lemma_offsets_monotonic(views, i + 1, views.len() as int);
            assert(views[i as int] == self.blocks@[i as int]@);
            assert(self.offsets@[i as int] == offset_of(views, i as int));
            assert(offset_of(views, i + 1) == offset_of(views, i as int) + views[i as int].u_size);
        }
        let base = self.offsets[i] as usize;
        let mut k: usize = 0;
        while k < block.len()
            invariant
                k <= block@.len(),
                base + block@.len() <= self.buf@.len(),
                self.buf@.len() == before.len(),
                self.blocks() == views,
                self.blocks@ == old(self).blocks@,
                self.offsets@ == old(self).offsets@,
                self.ready@ == old(self).ready@,
                self.materialized == old(self).materialized,
                forall|j: int| 0 <= j < k ==> self.buf@[base + j] == block@[j],
                forall|j: int|
                    0 <= j < before.len() && !(base <= j < base + block@.len()) ==> self.buf@[j]
                        == before[j],
            decreases block@.len() - k,
        {
            self.buf.set(base + k, block[k]);
            k += 1;
        }
        proof {
            lemma_count_set(self.ready@, i as int, self.ready@.len() as int);
            lemma_count_bounds(self.ready@.update(i as int, true), self.ready@.len() as int);
            assert(self.buf@.subrange(base as int, base + block@.len()) =~= block@);
            assert forall|j: int|
                0 <= j < self.ready@.len() && #[trigger] self.ready@[j] implies views[j].content()
                == Ok::<Seq<u8>, ParseError>(
                self.buf@.subrange(offset_of(views, j), offset_of(views, j) + views[j].u_size),
            ) by {
                if j < i {
                    lemma_offsets_monotonic(views, j + 1, i as int);
                } else {
                    lemma_offsets_monotonic(views, i + 1, j);
                }
                lemma_offsets_monotonic(views, j + 1, views.len() as int);
                lemma_offsets_monotonic(views, 0, j);
                assert(offset_of(views, j + 1) == offset_of(views, j) + views[j].u_size);
                assert(old(self).ready@[j]);
                assert(self.buf@.subrange(offset_of(views, j), offset_of(views, j) + views[j].u_size)
                    =~= before.subrange(offset_of(views, j), offset_of(views, j) + views[j].u_size));
            }
        }
        self.ready.set(i, true);
        self.materialized = self.materialized + 1;
        Ok(())
    }

    /// Reads the bytes of the virtual space from `range.start` up to
    /// `range.end`, expanding every block of the range that is not expanded
    /// yet.
    ///
    /// The bytes depend on the blocks and the range alone. A block that was
    /// expanded before is not expanded again. The first touched block that
    /// cannot be expanded ends the read with its error; the touched blocks
    /// before it stay expanded.
    #[verifier::loop_isolation(false)]
    pub fn read_range<'s>(&'s mut self, range: Range<u64>) -> (r: Result<&'s [u8], ParseError>)
        requires
            old(self).wf(),
        ensures
            final(self).wf(),
            final(self).blocks() == old(self).blocks(),
            final(self).ready() == flags_after(
                old(self).blocks(),
                old(self).ready(),
                range.start as int,
                range.end as int,
            ),
            final(self).materialized() == count_ready(
                final(self).ready(),
                final(self).ready().len() as int,
            ),
            final(self).materialized() >= old(self).materialized(),
            match r {
                Ok(bytes) => read_result(old(self).blocks(), range.start as int, range.end as int)
                    == Ok::<Seq<u8>, ParseError>(bytes@),
                Err(e) => read_result(old(self).blocks(), range.start as int, range.end as int)
                    == Err::<Seq<u8>, ParseError>(e),
            },
    {
        let start = range.start;
        let end = range.end;
        let ghost views = self.blocks();
        let ghost flags = self.ready@;
        proof {
            lemma_reads_only_add(views, flags, start as int, end as int);
        }
        let total = self.buf.len();
        if start > end || end > total as u64 {
            assert(self.ready@ =~= flags_after(views, flags, start as int, end as int));
            return Err(ParseError::TruncatedInput);
        }
        if start == end {
            proof {
                lemma_no_bad(views, 0, start as int, end as int);
                lemma_space(views, views.len() as int);
                assert(self.ready@ =~= flags_after(views, flags, start as int, end as int));
                assert(self.buf@.subrange(start as int, end as int) =~= virtual_space(views).subrange(
                    start as int,
                    end as int,
                ));
            }
            return Ok(vstd::slice::slice_subrange(self.buf.as_slice(), start as usize, end as usize));
        }
        let first = self.find_block(start);
        let last = self.find_block(end - 1);
        assert(last < self.ready.len());
        proof {
            if last < first {
                lemma_offsets_monotonic(views, last + 1, first as int);
            }
            lemma_touched_span(views, first as int, last as int, start as int, end as int);
            lemma_first_bad_skip(views, 0, first as int, start as int, end as int);
        }
        let mut i = first;
        while i <= last
            invariant
                first <= i <= last + 1,
                last < views.len(),
                self.wf(),
                self.blocks() == views,
                self.ready@.len() == flags.len(),
                flags.len() == views.len(),
                0 <= start < end <= total_size(views),
                forall|j: int| 0 <= j < views.len() ==> (first <= j <= last <==> touched(views, j, start as int, end as int)),
                first_bad(views, 0, start as int, end as int) == first_bad(views, i as int, start as int, end as int),
                forall|j: int| 0 <= j < flags.len() ==> #[trigger] self.ready@[j] == (flags[j] || (first <= j < i)),
            decreases last + 1 - i,
        {
            match self.materialize(i) {
                Ok(()) => {},
                Err(e) => {
                    assert(first_bad(views, i as int, start as int, end as int) == Some(i as int));
                    assert(self.ready@ =~= flags_after(views, flags, start as int, end as int));
                    return Err(e);
                },
            }
            i += 1;
        }
        proof {
            lemma_first_bad_skip(views, last + 1, views.len() as int, start as int, end as int);
            assert(self.ready@ =~= flags_after(views, flags, start as int, end as int));
            lemma_space(views, views.len() as int);
            assert forall|k: int| start <= k < end implies self.buf@[k] == virtual_space(views)[k] by {
                lemma_offsets_monotonic(views, last + 1, views.len() as int);
                let j = lemma_block_of(views, first as int, last as int, k);
                assert(self.ready@[j]);
                let base = offset_of(views, j);
                lemma_offsets_monotonic(views, 0, j);
                lemma_offsets_monotonic(views, j + 1, views.len() as int);
                assert(offset_of(views, j + 1) == base + views[j].u_size);
                assert(self.buf@.subrange(base, base + views[j].u_size)[k - base] == self.buf@[k]);
                assert(virtual_space(views)[base + (k - base)] == views[j].bytes()[k - base]);
            }
            assert(self.buf@.subrange(start as int, end as int) =~= virtual_space(views).subrange(
                start as int,
                end as int,
            ));
        }
        Ok(vstd::slice::slice_subrange(self.buf.as_slice(), start as usize, end as usize))
    }

    /// The length of the virtual space.
    pub fn len(&self) -> (r: usize)
        requires
            self.wf(),
        ensures
            r == total_size(self.blocks()),
    {
        self.buf.len()
    }

    /// How many times a block has been expanded since the storage was made.
    pub fn materializations(&self) -> (r: usize)
        ensures
            r == self.materialized(),
    {
        self.materialized
    }
}

/// No more blocks are expanded than there are.
pub proof fn lemma_count_bounds(flags: Seq<bool>, n: int)
    requires
        0 <= n <= flags.len(),
    ensures
        0 <= count_ready(flags, n) <= n,
        (forall|i: int| 0 <= i < n ==> !flags[i]) ==> count_ready(flags, n) == 0,
    decreases n,
{
    if n > 0 {
        lemma_count_bounds(flags, n - 1);
    }
}

/// An empty range touches no block.
pub proof fn lemma_no_bad(blocks: Seq<BlockView>, i: int, start: int, end: int)
    requires
        start >= end,
    ensures
        first_bad(blocks, i, start, end) is None,
    decreases blocks.len() - i,
{
    if 0 <= i < blocks.len() {
        lemma_no_bad(blocks, i + 1, start, end);
    }
}

/// The touched blocks are those from the last that begins at or before
/// `start` to the last that begins before `end`.
pub proof fn lemma_touched_span(blocks: Seq<BlockView>, first: int, last: int, start: int, end: int)
    requires
        0 <= first <= last < blocks.len(),
        start < end,
        offset_of(blocks, first) <= start,
        first + 1 == blocks.len() || offset_of(blocks, first + 1) > start,
        offset_of(blocks, last) < end,
        last + 1 == blocks.len() || offset_of(blocks, last + 1) >= end,
    ensures
        forall|j: int|
            0 <= j < blocks.len() ==> (first <= j <= last <==> touched(blocks, j, start, end)),
{
    assert forall|j: int| 0 <= j < blocks.len() implies (first <= j <= last <==> touched(
        blocks,
        j,
        start,
        end,
    )) by {
        if j < first {
            lemma_offsets_monotonic(blocks, j + 1, first);
        } else if j > last {
            lemma_offsets_monotonic(blocks, last + 1, j);
        } else {
            lemma_offsets_monotonic(blocks, j, last);
            if j + 1 < blocks.len() {
                lemma_offsets_monotonic(blocks, first + 1, j + 1);
            }
        }
    }
}

/// Blocks that the range does not touch are passed over in the search for
/// the first block that cannot be expanded.
pub proof fn lemma_first_bad_skip(blocks: Seq<BlockView>, i: int, j: int, start: int, end: int)
    requires
        0 <= i <= j <= blocks.len(),
        forall|k: int| i <= k < j ==> !touched(blocks, k, start, end),
    ensures
        first_bad(blocks, i, start, end) == first_bad(blocks, j, start, end),
    decreases j - i,
{
    if i < j {
        lemma_first_bad_skip(blocks, i + 1, j, start, end);
    }
}

/// A read expands blocks and forgets none: every block that was expanded
/// stays so, and the count of expanded blocks does not go down.
pub proof fn lemma_reads_only_add(blocks: Seq<BlockView>, flags: Seq<bool>, start: int, end: int)
    requires
        flags.len() == blocks.len(),
    ensures
        forall|i: int|
            0 <= i < flags.len() && flags[i] ==> #[trigger] flags_after(blocks, flags, start, end)[i],
        count_ready(flags_after(blocks, flags, start, end), flags.len() as int) >= count_ready(
            flags,
            flags.len() as int,
        ),
{
    lemma_count_monotonic(flags, flags_after(blocks, flags, start, end), flags.len() as int);
}

/// Where every flag of one list is set in another, the other counts at least
/// as many.
pub proof fn lemma_count_monotonic(a: Seq<bool>, b: Seq<bool>, n: int)
    requires
        0 <= n <= a.len(),
        a.len() == b.len(),
        forall|i: int| 0 <= i < a.len() && a[i] ==> b[i],
    ensures
        count_ready(a, n) <= count_ready(b, n),
    decreases n,
{
    if n > 0 {
        lemma_count_monotonic(a, b, n - 1);
    }
}

} // verus!
