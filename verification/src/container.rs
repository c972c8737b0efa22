//! The container: its header, its metadata, and the assets and resources
//! that its nodes name. All integers of the header are big-endian.

use vstd::prelude::*;
use std::ops::Range;
use vstd::set_lib::lemma_int_range;
use vstd::set_lib::lemma_len_subset;
use vstd::set_lib::set_int_range;
use crate::asset::Asset;
use crate::asset::AssetView;
use crate::asset::asset_views;
use crate::asset::spec_asset;
use crate::bytes::Endianness;
use crate::bytes::Parsed;
use crate::bytes::read_cstring;
use crate::bytes::read_u32;
use crate::bytes::read_u64;
use crate::bytes::spec_read_cstring;
use crate::bytes::spec_read_u32;
use crate::bytes::spec_read_u64;
use crate::bytes::spec_take;
use crate::bytes::str_eq;
use crate::bytes::take;
use crate::compression::BlockView;
use crate::compression::CompressedBlock;
use crate::compression::CompressedBlockStorage;
use crate::compression::block_views;
use crate::compression::flags_after;
use crate::compression::read_result;
use crate::compression::spec_compression;
use crate::compression::total_size;
use crate::error::ParseError;
use crate::metadata::ArchiveBlockInfo;
use crate::metadata::Metadata;
use crate::metadata::MetadataView;
use crate::metadata::NodeInfo;
use crate::metadata::NodeInfoView;
use crate::metadata::node_views;
use crate::metadata::spec_metadata;
use crate::type_tree::Catalog;
use crate::type_tree::TypeMetadataEntryView;

verus! {

/// The flag bit that puts the metadata block at the end of the file.
pub const METADATA_AT_END: u32 = 0x80;

/// The flag bits that name the compression of a block.
pub const COMPRESSION_MASK: u32 = 0x3f;

/// The fixed header of a container.
pub struct HeaderView {
    pub signature: Seq<char>,
    pub format_version: u32,
    pub unity_version: Seq<char>,
    pub generator_version: Seq<char>,
    pub file_size: u64,
    pub c_block_size: u32,
    pub u_block_size: u32,
    pub flags: u32,
}

/// The header at the start of a file: signature, format version, the two
/// version strings, the declared file size, the size of the metadata block
/// as stored and once expanded, and the flags.
pub open spec fn spec_header(s: Seq<u8>) -> Parsed<HeaderView> {
    match spec_read_cstring(s, 0) {
        Err(err) => Err(err),
        Ok((signature, p1)) => match spec_read_u32(s, p1, Endianness::Big) {
            Err(err) => Err(err),
            Ok((format_version, p2)) => match spec_read_cstring(s, p2) {
                Err(err) => Err(err),
                Ok((unity_version, p3)) => match spec_read_cstring(s, p3) {
                    Err(err) => Err(err),
                    Ok((generator_version, p4)) => match spec_read_u64(s, p4, Endianness::Big) {
                        Err(err) => Err(err),
                        Ok((file_size, p5)) => match spec_read_u32(s, p5, Endianness::Big) {
                            Err(err) => Err(err),
                            Ok((c_block_size, p6)) => match spec_read_u32(
                                s,
                                p6,
                                Endianness::Big,
                            ) {
                                Err(err) => Err(err),
                                Ok((u_block_size, p7)) => match spec_read_u32(
                                    s,
                                    p7,
                                    Endianness::Big,
                                ) {
                                    Err(err) => Err(err),
                                    Ok((flags, p8)) => Ok(
                                        (
                                            HeaderView {
                                                signature,
                                                format_version,
                                                unity_version,
                                                generator_version,
                                                file_size,
                                                c_block_size,
                                                u_block_size,
                                                flags,
                                            },
                                            p8,
                                        ),
                                    ),
                                },
                            },
                        },
                    },
                },
            },
        },
    }
}

/// Where the metadata block and the data region lie in a file of `len`
/// bytes whose header ends at `p`: the metadata block follows the header, or
/// closes the file where the flags say so; the data region is the rest.
/// Gives the bounds of the block, then those of the region.
pub open spec fn spec_layout(len: int, p: int, c_block_size: u32, flags: u32) -> (int, int, int, int) {
    if flags & METADATA_AT_END == METADATA_AT_END {
        (len - c_block_size, len, p, len - c_block_size)
    } else {
        (p, p + c_block_size, p + c_block_size, len)
    }
}

/// The first `n` data blocks, cut from the region one after the other, each
/// as long as its table entry says, and the position after them.
pub open spec fn spec_cut_blocks(region: Seq<u8>, pos: int, infos: Seq<ArchiveBlockInfo>, n: int) -> Parsed<
    Seq<BlockView>,
>
    decreases n,
{
    if n <= 0 {
        Ok((Seq::empty(), pos))
    } else {
        match spec_cut_blocks(region, pos, infos, n - 1) {
            Err(err) => Err(err),
            Ok((blocks, p)) => match spec_take(region, p, infos[n - 1].c_size as int) {
                Err(err) => Err(err),
                Ok((bytes, next)) => Ok(
                    (
                        blocks.push(
                            BlockView {
                                u_size: infos[n - 1].u_size,
                                compression: spec_compression(
                                    (infos[n - 1].flags & 0x3f) as u32,
                                ),
                                block: bytes,
                            },
                        ),
                        next,
                    ),
                ),
            },
        }
    }
}

/// Where the first `i` blocks cannot be cut, no larger number can.
pub proof fn lemma_cut_blocks_fails(
    region: Seq<u8>,
    pos: int,
    infos: Seq<ArchiveBlockInfo>,
    i: int,
    count: int,
)
    requires
        i <= count,
        spec_cut_blocks(region, pos, infos, i) is Err,
    ensures
        spec_cut_blocks(region, pos, infos, count) == spec_cut_blocks(region, pos, infos, i),
    decreases count - i,
{
    if i < count {
        lemma_cut_blocks_fails(region, pos, infos, i, count - 1);
    }
}

/// Every node lies in a virtual space of `total` bytes.
pub open spec fn nodes_within(nodes: Seq<NodeInfoView>, total: int) -> bool {
    forall|k: int| 0 <= k < nodes.len() ==> (#[trigger] nodes[k]).offset + nodes[k].size <= total
}

/// A parsed container as plain values: the header fields, the metadata and
/// the data blocks.
pub struct UnityFsMetaView {
    pub signature: Seq<char>,
    pub format_version: u32,
    pub unity_version: Seq<char>,
    pub generator_version: Seq<char>,
    pub metadata: MetadataView,
    pub blocks: Seq<BlockView>,
}

impl UnityFsMetaView {
    /// The length of the virtual space.
    pub open spec fn total(self) -> int {
        total_size(self.blocks)
    }

    /// There is one data block for each table entry, the virtual space can
    /// be addressed, and every node lies in it.
    pub open spec fn wf(self) -> bool {
        &&& self.blocks.len() == self.metadata.blocks.len()
        &&& self.total() <= usize::MAX
        &&& nodes_within(self.metadata.nodes, self.total())
    }
}

/// The container that a file holds, and the position after its last data
/// block.
///
/// The metadata block is expanded under the compression that the low six
/// bits of the flags name and must have its declared size. The data blocks
/// are cut from the data region in table order. A virtual space that cannot
/// be addressed, or a node that does not lie in it, is a bad header.
pub open spec fn spec_container(s: Seq<u8>) -> Parsed<UnityFsMetaView> {
    match spec_header(s) {
        Err(err) => Err(err),
        Ok((header, p)) => if header.c_block_size > s.len() - p {
            Err(ParseError::TruncatedInput)
        } else {
            let (raw_start, raw_end, data_start, data_end) = spec_layout(
                s.len() as int,
                p,
                header.c_block_size,
                header.flags,
            );
            let raw = BlockView {
                u_size: header.u_block_size,
                compression: spec_compression(header.flags & COMPRESSION_MASK),
                block: s.subrange(raw_start, raw_end),
            };
            match raw.content() {
                Err(err) => Err(err),
                Ok(bytes) => match spec_metadata(bytes, 0) {
                    Err(err) => Err(err),
                    Ok((metadata, _)) => match spec_cut_blocks(
                        s.subrange(0, data_end),
                        data_start,
                        metadata.blocks,
                        metadata.blocks.len() as int,
                    ) {
                        Err(err) => Err(err),
                        Ok((blocks, left)) => if total_size(blocks) > usize::MAX || !nodes_within(
                            metadata.nodes,
                            total_size(blocks),
                        ) {
                            Err(ParseError::BadHeader)
                        } else {
                            Ok(
                                (
                                    UnityFsMetaView {
                                        signature: header.signature,
                                        format_version: header.format_version,
                                        unity_version: header.unity_version,
                                        generator_version: header.generator_version,
                                        metadata,
                                        blocks,
                                    },
                                    left,
                                ),
                            )
                        },
                    },
                },
            }
        },
    }
}

/// The offsets of the virtual space that some node covers.
pub open spec fn covered(nodes: Seq<NodeInfoView>) -> Set<int> {
    Set::new(
        |i: int|
            exists|k: int|
                0 <= k < nodes.len() && (#[trigger] nodes[k]).offset <= i < nodes[k].offset
                    + nodes[k].size,
    )
}

/// The sizes of the blocks add up to the number of bytes that the nodes
/// cover and a padding that is not negative: the nodes of a well-formed
/// container cover no more than the virtual space.
pub proof fn lemma_coverage(meta: UnityFsMetaView)
    requires
        meta.wf(),
    ensures
        covered(meta.metadata.nodes).finite(),
        meta.total() - covered(meta.metadata.nodes).len() >= 0,
{
    crate::compression::lemma_offsets_monotonic(meta.blocks, 0, meta.blocks.len() as int);
    let space = set_int_range(0, meta.total());
    lemma_int_range(0, meta.total());
    assert(covered(meta.metadata.nodes).subset_of(space)) by {
        assert forall|i: int| covered(meta.metadata.nodes).contains(i) implies space.contains(i) by {
            let k = choose|k: int|
                0 <= k < meta.metadata.nodes.len() && (#[trigger] meta.metadata.nodes[k]).offset
                    <= i < meta.metadata.nodes[k].offset + meta.metadata.nodes[k].size;
            assert(meta.metadata.nodes[k].offset + meta.metadata.nodes[k].size <= meta.total());
        }
    }
    lemma_len_subset(covered(meta.metadata.nodes), space);
}

/// What a parsed container holds of its successfully parsed file: by
/// `spec_container`, a container that is read is well formed.
pub proof fn lemma_container_wf(s: Seq<u8>)
    ensures
        spec_container(s) matches Ok((meta, _)) ==> meta.wf(),
{
    match spec_header(s) {
        Err(err) => {},
        Ok((header, p)) => {
            if header.c_block_size <= s.len() - p {
                let (raw_start, raw_end, data_start, data_end) = spec_layout(
                    s.len() as int,
                    p,
                    header.c_block_size,
                    header.flags,
                );
                let raw = BlockView {
                    u_size: header.u_block_size,
                    compression: spec_compression(header.flags & COMPRESSION_MASK),
                    block: s.subrange(raw_start, raw_end),
                };
                match raw.content() {
                    Err(err) => {},
                    Ok(bytes) => match spec_metadata(bytes, 0) {
                        Err(err) => {},
                        Ok((metadata, _)) => {
                            lemma_cut_blocks_len(
                                s.subrange(0, data_end),
                                data_start,
                                metadata.blocks,
                                metadata.blocks.len() as int,
                            );
                        },
                    },
                }
            }
        },
    }
}

/// As many blocks are cut as were asked for.
pub proof fn lemma_cut_blocks_len(region: Seq<u8>, pos: int, infos: Seq<ArchiveBlockInfo>, n: int)
    requires
        0 <= n,
    ensures
        spec_cut_blocks(region, pos, infos, n) matches Ok((blocks, _)) ==> blocks.len() == n,
    decreases n,
{
    if n > 0 {
        lemma_cut_blocks_len(region, pos, infos, n - 1);
    }
}

/// The header fields of a container.
struct Header {
    signature: String,
    format_version: u32,
    unity_version: String,
    generator_version: String,
    file_size: u64,
    c_block_size: u32,
    u_block_size: u32,
    flags: u32,
}

impl View for Header {
    type V = HeaderView;

    closed spec fn view(&self) -> HeaderView {
        HeaderView {
            signature: self.signature@,
            format_version: self.format_version,
            unity_version: self.unity_version@,
            generator_version: self.generator_version@,
            file_size: self.file_size,
            c_block_size: self.c_block_size,
            u_block_size: self.u_block_size,
            flags: self.flags,
        }
    }
}

/// Reads the header at the start of a file.
fn read_header(input: &[u8]) -> (r: Result<(Header, usize), ParseError>)
    ensures
        match r {
            Ok((header, next)) => spec_header(input@) == Ok::<(HeaderView, int), ParseError>(
                (header@, next as int),
            ) && next <= input@.len(),
            Err(err) => spec_header(input@) == Err::<(HeaderView, int), ParseError>(err),
        },
{
    let (signature, p1) = read_cstring(input, 0)?;
    let (format_version, p2) = read_u32(input, p1, Endianness::Big)?;
    let (unity_version, p3) = read_cstring(input, p2)?;
    let (generator_version, p4) = read_cstring(input, p3)?;
    let (file_size, p5) = read_u64(input, p4, Endianness::Big)?;
    let (c_block_size, p6) = read_u32(input, p5, Endianness::Big)?;
    let (u_block_size, p7) = read_u32(input, p6, Endianness::Big)?;
    let (flags, p8) = read_u32(input, p7, Endianness::Big)?;
    Ok(
        (
            Header {
                signature,
                format_version,
                unity_version,
                generator_version,
                file_size,
                c_block_size,
                u_block_size,
                flags,
            },
            p8,
        ),
    )
}

/// Expands the metadata block and reads it.
fn read_metadata(raw: &[u8], u_block_size: u32, flags: u32) -> (r: Result<Metadata, ParseError>)
    ensures
        match (BlockView {
            u_size: u_block_size,
            compression: spec_compression(flags & COMPRESSION_MASK),
            block: raw@,
        }).content() {
            Err(err) => r == Err::<Metadata, ParseError>(err),
            Ok(bytes) => match spec_metadata(bytes, 0) {
                Err(err) => r == Err::<Metadata, ParseError>(err),
                Ok((metadata, _)) => r is Ok && r->Ok_0@ == metadata,
            },
        },
{
    let block = CompressedBlock::from_slice(u_block_size, flags & COMPRESSION_MASK, raw);
    let bytes = block.decompress()?;
    if bytes.len() != u_block_size as usize {
        return Err(ParseError::Lz4SizeMismatch);
    }
    let (metadata, _) = Metadata::parse(bytes.as_slice())?;
    Ok(metadata)
}

/// Cuts the data blocks from the region, in table order.
fn cut_blocks<'a>(region: &'a [u8], start: usize, infos: &Vec<ArchiveBlockInfo>) -> (r: Result<
    (Vec<CompressedBlock<'a>>, usize),
    ParseError,
>)
    ensures
        match r {
            Ok((blocks, left)) => spec_cut_blocks(
                region@,
                start as int,
                infos@,
                infos@.len() as int,
            ) == Ok::<(Seq<BlockView>, int), ParseError>((block_views(blocks@), left as int)),
            Err(err) => spec_cut_blocks(region@, start as int, infos@, infos@.len() as int) == Err::<
                (Seq<BlockView>, int),
                ParseError,
            >(err),
        },
{
    let mut blocks: Vec<CompressedBlock<'a>> = Vec::new();
    assert(block_views(blocks@) =~= Seq::<BlockView>::empty());
    let mut cur = start;
    let mut i: usize = 0;
    while i < infos.len()
        invariant
            i <= infos@.len(),
            spec_cut_blocks(region@, start as int, infos@, i as int) == Ok::<
                (Seq<BlockView>, int),
                ParseError,
            >((block_views(blocks@), cur as int)),
        decreases infos@.len() - i,
    {
        let info = infos[i];
        match take(region, cur, info.c_size as usize) {
            Ok((bytes, next)) => {
                let block = CompressedBlock::from_slice(
                    info.u_size,
                    (info.flags & 0x3f) as u32,
                    bytes,
                );
                proof {
                    assert(block_views(blocks@.push(block)) =~= block_views(blocks@).push(block@));
                }
                blocks.push(block);
                cur = next;
            },
            Err(err) => {
                proof {
                    lemma_cut_blocks_fails(
                        region@,
                        start as int,
                        infos@,
                        i + 1,
                        infos@.len() as int,
                    );
                }
                return Err(err);
            },
        }
        i += 1;
    }
    Ok((blocks, cur))
}

/// Whether every node lies in a virtual space of `total` bytes.
fn check_nodes(nodes: &Vec<NodeInfo>, total: u64) -> (ok: bool)
    ensures
        ok == nodes_within(node_views(nodes@), total as int),
{
    let mut i: usize = 0;
    while i < nodes.len()
        invariant
            i <= nodes@.len(),
            forall|k: int|
                0 <= k < i ==> (#[trigger] node_views(nodes@)[k]).offset + node_views(
                    nodes@,
                )[k].size <= total,
        decreases nodes@.len() - i,
    {
        let node = &nodes[i];
        if node.offset > total || node.size > total - node.offset {
            assert(node_views(nodes@)[i as int] == node@);
            return false;
        }
        assert(node_views(nodes@)[i as int] == node@);
        i += 1;
    }
    true
}

/// A container whose header and metadata have been read. Its data blocks
/// are expanded when its nodes are read.
pub struct UnityFsMeta<'a> {
    signature: String,
    format_version: u32,
    unity_version: String,
    generator_version: String,
    metadata: Metadata,
    storage: CompressedBlockStorage<'a>,
}

impl<'a> View for UnityFsMeta<'a> {
    type V = UnityFsMetaView;

    closed spec fn view(&self) -> UnityFsMetaView {
        UnityFsMetaView {
            signature: self.signature@,
            format_version: self.format_version,
            unity_version: self.unity_version@,
            generator_version: self.generator_version@,
            metadata: self.metadata@,
            blocks: self.storage.blocks(),
        }
    }
}

impl<'a> UnityFsMeta<'a> {
    /// The container is well formed and so is its block storage.
    pub closed spec fn wf(&self) -> bool {
        self@.wf() && self.storage.wf()
    }

    /// How many times a data block has been expanded.
    pub closed spec fn materialized(&self) -> int {
        self.storage.materialized()
    }

    /// For each data block, whether it has been expanded.
    pub closed spec fn ready(&self) -> Seq<bool> {
        self.storage.ready()
    }

    /// The signature of the file.
    pub fn signature(&self) -> (r: &str)
        ensures
            r@ == self@.signature,
    {
        self.signature.as_str()
    }

    /// The format version of the container.
    pub fn format_version(&self) -> (r: u32)
        ensures
            r == self@.format_version,
    {
        self.format_version
    }

    /// The version of the engine that the file names.
    pub fn unity_version(&self) -> (r: &str)
        ensures
            r@ == self@.unity_version,
    {
        self.unity_version.as_str()
    }

    /// The version of the generator that the file names.
    pub fn generator_version(&self) -> (r: &str)
        ensures
            r@ == self@.generator_version,
    {
        self.generator_version.as_str()
    }

    /// The metadata block of the container.
    pub fn metadata(&self) -> (r: &Metadata)
        ensures
            r@ == self@.metadata,
    {
        &self.metadata
    }

    /// Reads the header and the metadata of a container and lays out its
    /// data blocks; no block is expanded yet. Gives the container and the
    /// position after its last data block.
    pub fn parse(input: &'a [u8]) -> (r: Result<(UnityFsMeta<'a>, usize), ParseError>)
        ensures
            match r {
                Ok((meta, left)) => spec_container(input@) == Ok::<
                    (UnityFsMetaView, int),
                    ParseError,
                >((meta@, left as int)) && meta.wf() && meta.materialized() == 0 && meta.ready()
                    == Seq::new(meta@.blocks.len(), |i: int| false),
                Err(err) => spec_container(input@) == Err::<(UnityFsMetaView, int), ParseError>(
                    err,
                ),
            },
    {
        let (header, p) = read_header(input)?;
        let c_size = header.c_block_size as usize;
        if c_size > input.len() - p {
            return Err(ParseError::TruncatedInput);
        }
        let (raw_start, raw_end, data_start, data_end) = if header.flags & METADATA_AT_END
            == METADATA_AT_END {
            (input.len() - c_size, input.len(), p, input.len() - c_size)
        } else {
            (p, p + c_size, p + c_size, input.len())
        };
        let raw = vstd::slice::slice_subrange(input, raw_start, raw_end);
        let metadata = read_metadata(raw, header.u_block_size, header.flags)?;
        let region = vstd::slice::slice_subrange(input, 0, data_end);
        let (blocks, left) = cut_blocks(region, data_start, &metadata.blocks)?;
        let storage = CompressedBlockStorage::from_blocks(blocks)?;
        if !check_nodes(&metadata.nodes, storage.len() as u64) {
            return Err(ParseError::BadHeader);
        }
        proof {
            lemma_container_wf(input@);
        }
        Ok(
            (
                UnityFsMeta {
                    signature: header.signature,
                    format_version: header.format_version,
                    unity_version: header.unity_version,
                    generator_version: header.generator_version,
                    metadata,
                    storage,
                },
                left,
            ),
        )
    }
}

/// The bytes of the first `n` nodes, each under the name of its node.
pub open spec fn spec_resources(blocks: Seq<BlockView>, nodes: Seq<NodeInfoView>, n: int) -> Result<
    Seq<(Seq<char>, Seq<u8>)>,
    ParseError,
>
    decreases n,
{
    if n <= 0 {
        Ok(Seq::empty())
    } else {
        match spec_resources(blocks, nodes, n - 1) {
            Err(err) => Err(err),
            Ok(list) => match read_result(
                blocks,
                nodes[n - 1].offset as int,
                nodes[n - 1].offset + nodes[n - 1].size,
            ) {
                Err(err) => Err(err),
                Ok(bytes) => Ok(list.push((nodes[n - 1].name, bytes))),
            },
        }
    }
}

/// Where the first `i` nodes cannot be read, no larger number can.
pub proof fn lemma_resources_fail(blocks: Seq<BlockView>, nodes: Seq<NodeInfoView>, i: int, n: int)
    requires
        i <= n,
        spec_resources(blocks, nodes, i) is Err,
    ensures
        spec_resources(blocks, nodes, n) == spec_resources(blocks, nodes, i),
    decreases n - i,
{
    if i < n {
        lemma_resources_fail(blocks, nodes, i, n - 1);
    }
}

/// Which blocks are expanded after the first `n` nodes were read, one after
/// the other, up to the first node that cannot be read.
pub open spec fn ready_after_nodes(
    blocks: Seq<BlockView>,
    flags: Seq<bool>,
    nodes: Seq<NodeInfoView>,
    n: int,
) -> Seq<bool>
    decreases n,
{
    if n <= 0 {
        flags
    } else if spec_resources(blocks, nodes, n - 1) is Err {
        ready_after_nodes(blocks, flags, nodes, n - 1)
    } else {
        flags_after(
            blocks,
            ready_after_nodes(blocks, flags, nodes, n - 1),
            nodes[n - 1].offset as int,
            nodes[n - 1].offset + nodes[n - 1].size,
        )
    }
}

/// After the first node that cannot be read no further block is expanded.
pub proof fn lemma_ready_after_failure(
    blocks: Seq<BlockView>,
    flags: Seq<bool>,
    nodes: Seq<NodeInfoView>,
    i: int,
    n: int,
)
    requires
        i <= n,
        spec_resources(blocks, nodes, i) is Err,
    ensures
        ready_after_nodes(blocks, flags, nodes, n) == ready_after_nodes(blocks, flags, nodes, i),
    decreases n - i,
{
    if i < n {
        lemma_resources_fail(blocks, nodes, i, n - 1);
        lemma_ready_after_failure(blocks, flags, nodes, i, n - 1);
    }
}

/// The bytes of the last resource called `name`.
pub open spec fn spec_resource(resources: Seq<(Seq<char>, Seq<u8>)>, name: Seq<char>) -> Option<
    Seq<u8>,
>
    decreases resources.len(),
{
    if resources.len() == 0 {
        None
    } else if resources.last().0 == name {
        Some(resources.last().1)
    } else {
        spec_resource(resources.drop_last(), name)
    }
}

/// A loaded container as plain values: its GUID, its main asset, the bytes
/// of every node under the node's name, and the offset of every node.
pub struct UnityFsView {
    pub guid: Seq<u8>,
    pub main_asset: AssetView,
    pub resources: Seq<(Seq<char>, Seq<u8>)>,
    pub offsets: Seq<u64>,
}

/// The offsets of the nodes, in order.
pub open spec fn spec_node_offsets(nodes: Seq<NodeInfoView>) -> Seq<u64> {
    nodes.map_values(|n: NodeInfoView| n.offset)
}

/// The first `n` nodes of a loaded container, each read as an asset at the
/// offset of its node.
pub open spec fn spec_assets(
    fs: UnityFsView,
    strings: Seq<u8>,
    defaults: Map<i32, TypeMetadataEntryView>,
    n: int,
) -> Result<Seq<AssetView>, ParseError>
    decreases n,
{
    if n <= 0 {
        Ok(Seq::empty())
    } else {
        match spec_assets(fs, strings, defaults, n - 1) {
            Err(err) => Err(err),
            Ok(list) => match spec_asset(
                fs.resources[n - 1].0,
                fs.resources[n - 1].1,
                fs.offsets[n - 1] as int,
                strings,
                defaults,
            ) {
                Err(err) => Err(err),
                Ok((asset, _)) => Ok(list.push(asset)),
            },
        }
    }
}

/// Where the first `i` nodes cannot be read as assets, no larger number can.
pub proof fn lemma_assets_fail(
    fs: UnityFsView,
    strings: Seq<u8>,
    defaults: Map<i32, TypeMetadataEntryView>,
    i: int,
    n: int,
)
    requires
        i <= n,
        spec_assets(fs, strings, defaults, i) is Err,
    ensures
        spec_assets(fs, strings, defaults, n) == spec_assets(fs, strings, defaults, i),
    decreases n - i,
{
    if i < n {
        lemma_assets_fail(fs, strings, defaults, i, n - 1);
    }
}

/// What a container holds once its nodes are read: the bytes of every node,
/// and the asset that the first node is. A container without nodes is a bad
/// header.
pub open spec fn spec_unityfs(
    meta: UnityFsMetaView,
    strings: Seq<u8>,
    defaults: Map<i32, TypeMetadataEntryView>,
) -> Result<UnityFsView, ParseError> {
    match spec_resources(meta.blocks, meta.metadata.nodes, meta.metadata.nodes.len() as int) {
        Err(err) => Err(err),
        Ok(resources) => if meta.metadata.nodes.len() == 0 {
            Err(ParseError::BadHeader)
        } else {
            match spec_asset(
                meta.metadata.nodes[0].name,
                resources[0].1,
                meta.metadata.nodes[0].offset as int,
                strings,
                defaults,
            ) {
                Err(err) => Err(err),
                Ok((main_asset, _)) => Ok(
                    UnityFsView {
                        guid: meta.metadata.guid,
                        main_asset,
                        resources,
                        offsets: spec_node_offsets(meta.metadata.nodes),
                    },
                ),
            }
        },
    }
}

/// A loaded container has the name and the GUID that its metadata gives:
/// its main asset is called as the first node is, and it holds one resource
/// for every node.
pub proof fn lemma_loaded_container(
    meta: UnityFsMetaView,
    strings: Seq<u8>,
    defaults: Map<i32, TypeMetadataEntryView>,
)
    ensures
        spec_unityfs(meta, strings, defaults) matches Ok(fs) ==> {
            &&& meta.metadata.nodes.len() > 0
            &&& fs.main_asset.name == meta.metadata.nodes[0].name
            &&& fs.guid == meta.metadata.guid
            &&& fs.resources.len() == meta.metadata.nodes.len()
            &&& fs.offsets.len() == meta.metadata.nodes.len()
        },
{
    reveal(spec_asset);
    lemma_resources_len(meta.blocks, meta.metadata.nodes, meta.metadata.nodes.len() as int);
}

/// What a file holds: its container, with the nodes read.
pub open spec fn spec_load(s: Seq<u8>, strings: Seq<u8>, defaults: Map<i32, TypeMetadataEntryView>) -> Result<
    UnityFsView,
    ParseError,
> {
    match spec_container(s) {
        Err(err) => Err(err),
        Ok((meta, _)) => spec_unityfs(meta, strings, defaults),
    }
}

/// The views of a list of resources.
pub open spec fn resource_views(resources: Seq<(String, Vec<u8>)>) -> Seq<(Seq<char>, Seq<u8>)> {
    resources.map_values(|r: (String, Vec<u8>)| (r.0@, r.1@))
}

/// Reads the bytes of every node.
fn read_resources(storage: &mut CompressedBlockStorage, nodes: &Vec<NodeInfo>) -> (r: Result<
    Vec<(String, Vec<u8>)>,
    ParseError,
>)
    requires
        old(storage).wf(),
        nodes_within(node_views(nodes@), total_size(old(storage).blocks())),
        total_size(old(storage).blocks()) <= usize::MAX,
    ensures
        final(storage).wf(),
        final(storage).blocks() == old(storage).blocks(),
        final(storage).materialized() >= old(storage).materialized(),
        final(storage).ready() == ready_after_nodes(
            old(storage).blocks(),
            old(storage).ready(),
            node_views(nodes@),
            nodes@.len() as int,
        ),
        match r {
            Ok(resources) => spec_resources(
                old(storage).blocks(),
                node_views(nodes@),
                nodes@.len() as int,
            ) == Ok::<Seq<(Seq<char>, Seq<u8>)>, ParseError>(resource_views(resources@)),
            Err(err) => spec_resources(
                old(storage).blocks(),
                node_views(nodes@),
                nodes@.len() as int,
            ) == Err::<Seq<(Seq<char>, Seq<u8>)>, ParseError>(err),
        },
{
    let ghost blocks = storage.blocks();
    let mut resources: Vec<(String, Vec<u8>)> = Vec::new();
    assert(resource_views(resources@) =~= Seq::<(Seq<char>, Seq<u8>)>::empty());
    let mut i: usize = 0;
    while i < nodes.len()
        invariant
            i <= nodes@.len(),
            storage.wf(),
            storage.blocks() == blocks,
            blocks == old(storage).blocks(),
            storage.materialized() >= old(storage).materialized(),
            storage.ready() == ready_after_nodes(
                blocks,
                old(storage).ready(),
                node_views(nodes@),
                i as int,
            ),
            nodes_within(node_views(nodes@), total_size(blocks)),
            total_size(blocks) <= usize::MAX,
            spec_resources(blocks, node_views(nodes@), i as int) == Ok::<
                Seq<(Seq<char>, Seq<u8>)>,
                ParseError,
            >(resource_views(resources@)),
        decreases nodes@.len() - i,
    {
        let node = &nodes[i];
        assert(node_views(nodes@)[i as int] == node@);
        let range: Range<u64> = node.offset..node.offset + node.size;
        let copy = match storage.read_range(range) {
            Ok(bytes) => vstd::slice::slice_to_vec(bytes),
            Err(err) => {
                proof {
                    lemma_resources_fail(blocks, node_views(nodes@), i + 1, nodes@.len() as int);
                    lemma_ready_after_failure(
                        blocks,
                        old(storage).ready(),
                        node_views(nodes@),
                        i + 1,
                        nodes@.len() as int,
                    );
                }
                return Err(err);
            },
        };
        let name = node.name.clone();
        proof {
            assert(resource_views(resources@.push((name, copy))) =~= resource_views(
                resources@,
            ).push((name@, copy@)));
        }
        resources.push((name, copy));
        i += 1;
    }
    Ok(resources)
}

/// Lists the offsets of the nodes.
fn node_offsets(nodes: &Vec<NodeInfo>) -> (r: Vec<u64>)
    ensures
        r@ == spec_node_offsets(node_views(nodes@)),
{
    let mut offsets: Vec<u64> = Vec::new();
    let mut i: usize = 0;
    while i < nodes.len()
        invariant
            i <= nodes@.len(),
            offsets@.len() == i,
            forall|k: int| 0 <= k < i ==> offsets@[k] == nodes@[k].offset,
        decreases nodes@.len() - i,
    {
        offsets.push(nodes[i].offset);
        i += 1;
    }
    assert(offsets@ =~= spec_node_offsets(node_views(nodes@)));
    offsets
}

/// A container whose nodes have been read.
#[derive(Debug)]
pub struct UnityFs {
    guid: [u8; 16],
    main_asset: Asset,
    resources: Vec<(String, Vec<u8>)>,
    offsets: Vec<u64>,
}

impl View for UnityFs {
    type V = UnityFsView;

    closed spec fn view(&self) -> UnityFsView {
        UnityFsView {
            guid: self.guid@,
            main_asset: self.main_asset@,
            resources: resource_views(self.resources@),
            offsets: self.offsets@,
        }
    }
}

impl<'a> UnityFsMeta<'a> {
    /// Reads the bytes of every node, expanding the data blocks that they
    /// touch, and parses the first node as the main asset.
    ///
    /// The container itself does not change; only the blocks that the nodes
    /// touch become expanded, up to the first node that cannot be read. That
    /// node ends the call with its error, before the main asset is parsed.
    pub fn read_unityfs(&mut self, catalog: &Catalog) -> (r: Result<UnityFs, ParseError>)
        requires
            old(self).wf(),
        ensures
            final(self).wf(),
            final(self)@ == old(self)@,
            final(self).materialized() >= old(self).materialized(),
            final(self).ready() == ready_after_nodes(
                old(self)@.blocks,
                old(self).ready(),
                old(self)@.metadata.nodes,
                old(self)@.metadata.nodes.len() as int,
            ),
            match r {
                Ok(fs) => spec_unityfs(old(self)@, catalog.strings@, catalog.defaults@.entries)
                    == Ok::<UnityFsView, ParseError>(fs@),
                Err(err) => spec_unityfs(old(self)@, catalog.strings@, catalog.defaults@.entries)
                    == Err::<UnityFsView, ParseError>(err),
            },
    {
        let resources = read_resources(&mut self.storage, &self.metadata.nodes)?;
        if self.metadata.nodes.len() == 0 {
            return Err(ParseError::BadHeader);
        }
        proof {
            lemma_resources_len(
                self.storage.blocks(),
                node_views(self.metadata.nodes@),
                self.metadata.nodes@.len() as int,
            );
        }
        let node = &self.metadata.nodes[0];
        assert(node_views(self.metadata.nodes@)[0] == node@);
        let (main_asset, _) = Asset::parse(
            node.name.clone(),
            resources[0].1.as_slice(),
            node.offset,
            catalog,
        )?;
        let offsets = node_offsets(&self.metadata.nodes);
        Ok(UnityFs { guid: self.metadata.guid, main_asset, resources, offsets })
    }
}

/// As many resources are read as there are nodes.
pub proof fn lemma_resources_len(blocks: Seq<BlockView>, nodes: Seq<NodeInfoView>, n: int)
    requires
        0 <= n,
    ensures
        spec_resources(blocks, nodes, n) matches Ok(list) ==> list.len() == n,
    decreases n,
{
    if n > 0 {
        lemma_resources_len(blocks, nodes, n - 1);
    }
}

impl UnityFs {
    /// Every node has its offset.
    #[verifier::type_invariant]
    spec fn well_formed(&self) -> bool {
        self.offsets@.len() == self.resources@.len()
    }

    /// Reads a container and its nodes from the bytes of a file.
    pub fn load(input: &[u8], catalog: &Catalog) -> (r: Result<UnityFs, ParseError>)
        ensures
            match r {
                Ok(fs) => spec_load(input@, catalog.strings@, catalog.defaults@.entries) == Ok::<
                    UnityFsView,
                    ParseError,
                >(fs@),
                Err(err) => spec_load(input@, catalog.strings@, catalog.defaults@.entries) == Err::<
                    UnityFsView,
                    ParseError,
                >(err),
            },
    {
        let (mut meta, _) = UnityFsMeta::parse(input)?;
        meta.read_unityfs(catalog)
    }

    /// The GUID of the container.
    pub fn guid(&self) -> (r: [u8; 16])
        ensures
            r@ == self@.guid,
    {
        self.guid
    }

    /// The name of the main asset.
    pub fn name(&self) -> (r: &str)
        ensures
            r@ == self@.main_asset.name,
    {
        self.main_asset.name()
    }

    /// The main asset: the one that the first node holds.
    pub fn main_asset(&self) -> (r: &Asset)
        ensures
            r@ == self@.main_asset,
    {
        &self.main_asset
    }

    /// Every node read as an asset, in node order. The first node that is no
    /// asset ends the call with its error.
    pub fn assets(&self, catalog: &Catalog) -> (r: Result<Vec<Asset>, ParseError>)
        ensures
            match r {
                Ok(assets) => spec_assets(
                    self@,
                    catalog.strings@,
                    catalog.defaults@.entries,
                    self@.resources.len() as int,
                ) == Ok::<Seq<AssetView>, ParseError>(asset_views(assets@)),
                Err(err) => spec_assets(
                    self@,
                    catalog.strings@,
                    catalog.defaults@.entries,
                    self@.resources.len() as int,
                ) == Err::<Seq<AssetView>, ParseError>(err),
            },
    {
        proof {
            use_type_invariant(self);
        }
        let mut assets: Vec<Asset> = Vec::new();
        assert(asset_views(assets@) =~= Seq::<AssetView>::empty());
        let mut i: usize = 0;
        while i < self.resources.len()
            invariant
                i <= self.resources@.len(),
                self.offsets@.len() == self.resources@.len(),
                self@.resources.len() == self.resources@.len(),
                spec_assets(self@, catalog.strings@, catalog.defaults@.entries, i as int) == Ok::<
                    Seq<AssetView>,
                    ParseError,
                >(asset_views(assets@)),
            decreases self.resources@.len() - i,
        {
            let name = self.resources[i].0.clone();
            assert(self@.resources[i as int] == (name@, self.resources@[i as int].1@));
            match Asset::parse(name, self.resources[i].1.as_slice(), self.offsets[i], catalog) {
                Ok((asset, _)) => {
                    proof {
                        assert(asset_views(assets@.push(asset)) =~= asset_views(assets@).push(asset@));
                    }
                    assets.push(asset);
                },
                Err(err) => {
                    proof {
                        lemma_assets_fail(
                            self@,
                            catalog.strings@,
                            catalog.defaults@.entries,
                            i + 1,
                            self@.resources.len() as int,
                        );
                    }
                    return Err(err);
                },
            }
            i += 1;
        }
        Ok(assets)
    }

    /// The bytes of the node called `name`: of the last one, where several
    /// have that name.
    pub fn resource(&self, name: &str) -> (r: Option<&[u8]>)
        ensures
            match r {
                Some(bytes) => spec_resource(self@.resources, name@) == Some(bytes@),
                None => spec_resource(self@.resources, name@) is None,
            },
    {
        let ghost views = resource_views(self.resources@);
        let mut i: usize = self.resources.len();
        assert(views.subrange(0, i as int) =~= views);
        while i > 0
            invariant
                i <= self.resources@.len(),
                views == resource_views(self.resources@),
                spec_resource(views, name@) == spec_resource(views.subrange(0, i as int), name@),
            decreases i,
        {
            i -= 1;
            assert(views.subrange(0, i + 1).drop_last() =~= views.subrange(0, i as int));
            assert(views.subrange(0, i + 1).last() == views[i as int]);
            if str_eq(self.resources[i].0.as_str(), name) {
                return Some(self.resources[i].1.as_slice());
            }
        }
        None
    }
}

} // verus!
