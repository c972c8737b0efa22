//! The metadata block of a container: its GUID, the table of data blocks and
//! the table of nodes. All integers are big-endian.

use vstd::prelude::*;
use crate::bytes::Endianness;
use crate::bytes::Parsed;
use crate::bytes::agrees;
use crate::bytes::lemma_repeat_fails;
use crate::bytes::read_cstring;
use crate::bytes::read_u16;
use crate::bytes::read_u32;
use crate::bytes::read_u64;
use crate::bytes::spec_read_cstring;
use crate::bytes::spec_read_u16;
use crate::bytes::spec_read_u32;
use crate::bytes::spec_read_u64;
use crate::bytes::spec_repeat;
use crate::bytes::spec_take;
use crate::bytes::take;
use crate::error::ParseError;

verus! {

/// One entry of the block table: the size of a data block once expanded, its
/// size in the file, and its flags, whose low six bits name the compression.
#[derive(Copy, Clone, Debug, PartialEq, Eq)]
pub struct ArchiveBlockInfo {
    pub u_size: u32,
    pub c_size: u32,
    pub flags: u16,
}

/// One entry of the node table: a named range of the virtual space.
#[derive(Debug, PartialEq, Eq)]
pub struct NodeInfo {
    pub offset: u64,
    pub size: u64,
    pub status: u32,
    pub name: String,
}

/// A node as plain values.
pub struct NodeInfoView {
    pub offset: u64,
    pub size: u64,
    pub status: u32,
    pub name: Seq<char>,
}

impl View for NodeInfo {
    type V = NodeInfoView;

    open spec fn view(&self) -> NodeInfoView {
        NodeInfoView { offset: self.offset, size: self.size, status: self.status, name: self.name@ }
    }
}

impl View for ArchiveBlockInfo {
    type V = ArchiveBlockInfo;

    open spec fn view(&self) -> ArchiveBlockInfo {
        *self
    }
}

/// The views of a list of nodes.
pub open spec fn node_views(nodes: Seq<NodeInfo>) -> Seq<NodeInfoView> {
    nodes.map_values(|n: NodeInfo| n@)
}

/// The metadata block of a container.
#[derive(Debug, PartialEq, Eq)]
pub struct Metadata {
    pub guid: [u8; 16],
    pub blocks: Vec<ArchiveBlockInfo>,
    pub nodes: Vec<NodeInfo>,
}

/// The metadata block as plain values.
pub struct MetadataView {
    pub guid: Seq<u8>,
    pub blocks: Seq<ArchiveBlockInfo>,
    pub nodes: Seq<NodeInfoView>,
}

impl View for Metadata {
    type V = MetadataView;

    open spec fn view(&self) -> MetadataView {
        MetadataView {
            guid: self.guid@,
            blocks: self.blocks@,
            nodes: node_views(self.nodes@),
        }
    }
}

/// An entry of the block table at `pos`.
pub open spec fn spec_block_info(s: Seq<u8>, pos: int) -> Parsed<ArchiveBlockInfo> {
    match spec_read_u32(s, pos, Endianness::Big) {
        Err(e) => Err(e),
        Ok((u_size, p1)) => match spec_read_u32(s, p1, Endianness::Big) {
            Err(e) => Err(e),
            Ok((c_size, p2)) => match spec_read_u16(s, p2, Endianness::Big) {
                Err(e) => Err(e),
                Ok((flags, p3)) => Ok((ArchiveBlockInfo { u_size, c_size, flags }, p3)),
            },
        },
    }
}

/// An entry of the node table at `pos`.
pub open spec fn spec_node_info(s: Seq<u8>, pos: int) -> Parsed<NodeInfoView> {
    match spec_read_u64(s, pos, Endianness::Big) {
        Err(e) => Err(e),
        Ok((offset, p1)) => match spec_read_u64(s, p1, Endianness::Big) {
            Err(e) => Err(e),
            Ok((size, p2)) => match spec_read_u32(s, p2, Endianness::Big) {
                Err(e) => Err(e),
                Ok((status, p3)) => match spec_read_cstring(s, p3) {
                    Err(e) => Err(e),
                    Ok((name, p4)) => Ok((NodeInfoView { offset, size, status, name }, p4)),
                },
            },
        },
    }
}

/// The metadata block at `pos`: sixteen bytes of GUID, the number of blocks
/// and that many block entries, the number of nodes and that many node
/// entries.
pub open spec fn spec_metadata(s: Seq<u8>, pos: int) -> Parsed<MetadataView> {
    match spec_take(s, pos, 16) {
        Err(e) => Err(e),
        Ok((guid, p1)) => match spec_read_u32(s, p1, Endianness::Big) {
            Err(e) => Err(e),
            Ok((block_count, p2)) => match spec_repeat(
                |s: Seq<u8>, p: int| spec_block_info(s, p),
                s,
                p2,
                block_count as int,
            ) {
                Err(e) => Err(e),
                Ok((blocks, p3)) => match spec_read_u32(s, p3, Endianness::Big) {
                    Err(e) => Err(e),
                    Ok((node_count, p4)) => match spec_repeat(
                        |s: Seq<u8>, p: int| spec_node_info(s, p),
                        s,
                        p4,
                        node_count as int,
                    ) {
                        Err(e) => Err(e),
                        Ok((nodes, p5)) => Ok((MetadataView { guid, blocks, nodes }, p5)),
                    },
                },
            },
        },
    }
}

impl ArchiveBlockInfo {
    /// Reads one entry of the block table.
    pub fn parse(input: &[u8], pos: usize) -> (r: Result<(ArchiveBlockInfo, usize), ParseError>)
        ensures
            agrees(r, spec_block_info(input@, pos as int)),
    {
        let (u_size, p1) = read_u32(input, pos, Endianness::Big)?;
        let (c_size, p2) = read_u32(input, p1, Endianness::Big)?;
        let (flags, p3) = read_u16(input, p2, Endianness::Big)?;
        Ok((ArchiveBlockInfo { u_size, c_size, flags }, p3))
    }
}

impl NodeInfo {
    /// Reads one entry of the node table.
    pub fn parse(input: &[u8], pos: usize) -> (r: Result<(NodeInfo, usize), ParseError>)
        ensures
            agrees(r, spec_node_info(input@, pos as int)),
    {
        let (offset, p1) = read_u64(input, pos, Endianness::Big)?;
        let (size, p2) = read_u64(input, p1, Endianness::Big)?;
        let (status, p3) = read_u32(input, p2, Endianness::Big)?;
        let (name, p4) = read_cstring(input, p3)?;
        Ok((NodeInfo { offset, size, status, name }, p4))
    }
}

impl Metadata {
    /// Reads the metadata block from the start of `input`, and says how many
    /// bytes it takes.
    #[verifier::loop_isolation(false)]
    pub fn parse(input: &[u8]) -> (r: Result<(Metadata, usize), ParseError>)
        ensures
            agrees(r, spec_metadata(input@, 0)),
    {
        let (guid_bytes, p1) = take(input, 0, 16)?;
        let mut guid = [0u8; 16];
        let mut k: usize = 0;
        while k < 16
            invariant
                k <= 16,
                forall|j: int| 0 <= j < k ==> guid@[j] == guid_bytes@[j],
            decreases 16 - k,
        {
            guid[k] = guid_bytes[k];
            k += 1;
        }
        assert(guid@ =~= guid_bytes@);
        let (block_count, p2) = read_u32(input, p1, Endianness::Big)?;
        let ghost block_item = |s: Seq<u8>, p: int| spec_block_info(s, p);
        let mut blocks: Vec<ArchiveBlockInfo> = Vec::new();
        let mut cur = p2;
        let mut i: u32 = 0;
        while i < block_count
            invariant
                i <= block_count,
                spec_repeat(block_item, input@, p2 as int, i as int) == Ok::<
                    (Seq<ArchiveBlockInfo>, int),
                    ParseError,
                >((blocks@, cur as int)),
            decreases block_count - i,
        {
            match ArchiveBlockInfo::parse(input, cur) {
                Ok((info, next)) => {
                    blocks.push(info);
                    cur = next;
                },
                Err(e) => {
                    proof {
                        lemma_repeat_fails(block_item, input@, p2 as int, i + 1, block_count as int);
                    }
                    return Err(e);
                },
            }
            i += 1;
        }
        let p3 = cur;
        let (node_count, p4) = read_u32(input, p3, Endianness::Big)?;
        let ghost node_item = |s: Seq<u8>, p: int| spec_node_info(s, p);
        let mut nodes: Vec<NodeInfo> = Vec::new();
        assert(node_views(nodes@) =~= Seq::<NodeInfoView>::empty());
        let mut cur = p4;
        let mut i: u32 = 0;
        while i < node_count
            invariant
                i <= node_count,
                spec_repeat(node_item, input@, p4 as int, i as int) == Ok::<
                    (Seq<NodeInfoView>, int),
                    ParseError,
                >((node_views(nodes@), cur as int)),
            decreases node_count - i,
        {
            match NodeInfo::parse(input, cur) {
                Ok((info, next)) => {
                    proof {
                        assert(node_views(nodes@.push(info)) =~= node_views(nodes@).push(info@));
                    }
                    nodes.push(info);
                    cur = next;
                },
                Err(e) => {
                    proof {
                        lemma_repeat_fails(node_item, input@, p4 as int, i + 1, node_count as int);
                    }
                    return Err(e);
                },
            }
            i += 1;
        }
        Ok((Metadata { guid, blocks, nodes }, cur))
    }
}

} // verus!
