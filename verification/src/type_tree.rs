//! Type trees: the schemas that say how the bytes of an object are laid out.
//!
//! A tree comes in one of two encodings, a recursive one and a flat one with a
//! string table. Walking a tree over the bytes of an object yields a
//! [`Data`] value.

use vstd::prelude::*;
use std::collections::HashMap;
use crate::bytes::Endianness;
use crate::bytes::Parsed;
use crate::bytes::agrees;
use crate::bytes::align;
use crate::bytes::find_nul;
use crate::bytes::lemma_find_nul;
use crate::bytes::lemma_repeat_fails;
use crate::bytes::read_cstring;
use crate::bytes::read_i16;
use crate::bytes::read_i32;
use crate::bytes::read_i64;
use crate::bytes::read_i8;
use crate::bytes::read_u16;
use crate::bytes::read_u32;
use crate::bytes::read_u64;
use crate::bytes::read_u8;
use crate::bytes::spec_align;
use crate::bytes::spec_read_cstring;
use crate::bytes::spec_read_i16;
use crate::bytes::spec_read_i32;
use crate::bytes::spec_read_i64;
use crate::bytes::spec_read_i8;
use crate::bytes::spec_read_u16;
use crate::bytes::spec_read_u32;
use crate::bytes::spec_read_u64;
use crate::bytes::spec_read_u8;
use crate::bytes::spec_repeat;
use crate::bytes::spec_take;
use crate::bytes::str_eq;
use crate::bytes::take;
use crate::error::ParseError;

verus! {

/// The flag bit of a node that asks for alignment to four bytes after it.
pub const ALIGN_FLAG: u32 = 0x4000;

/// One node of a type tree, with the nodes below it.
#[derive(Debug, PartialEq, Eq)]
pub struct TypeTree {
    pub version: u32,
    pub is_array: bool,
    pub ty_name: String,
    pub name: String,
    pub size: u32,
    pub index: u32,
    pub flags: u32,
    pub children: Vec<TypeTree>,
}

/// A type tree as plain values.
pub struct TypeTreeView {
    pub version: u32,
    pub is_array: bool,
    pub ty_name: Seq<char>,
    pub name: Seq<char>,
    pub size: u32,
    pub index: u32,
    pub flags: u32,
    pub children: Seq<TypeTreeView>,
}

impl TypeTree {
    /// The tree as plain values, node by node.
    pub open spec fn model(&self) -> TypeTreeView
        decreases self,
    {
        TypeTreeView {
            version: self.version,
            is_array: self.is_array,
            ty_name: self.ty_name@,
            name: self.name@,
            size: self.size,
            index: self.index,
            flags: self.flags,
            children: Seq::new(
                self.children.len() as nat,
                |i: int|
                    if 0 <= i < self.children.len() {
                        self.children[i].model()
                    } else {
                        arbitrary()
                    },
            ),
        }
    }
}

impl View for TypeTree {
    type V = TypeTreeView;

    open spec fn view(&self) -> TypeTreeView {
        self.model()
    }
}

/// The views of a list of trees.
pub open spec fn tree_views(trees: Seq<TypeTree>) -> Seq<TypeTreeView> {
    trees.map_values(|t: TypeTree| t.model())
}

/// The view of a tree holds the fields of the tree.
pub proof fn lemma_model(tree: TypeTree)
    ensures
        tree.model().version == tree.version,
        tree.model().is_array == tree.is_array,
        tree.model().ty_name == tree.ty_name@,
        tree.model().name == tree.name@,
        tree.model().size == tree.size,
        tree.model().index == tree.index,
        tree.model().flags == tree.flags,
        tree.model().children.len() == tree.children@.len(),
        forall|i: int|
            0 <= i < tree.children@.len() ==> #[trigger] tree.model().children[i]
                == tree.children@[i].model(),
{
}

/// The children of a tree's view are the views of its children.
pub proof fn lemma_children_views(tree: TypeTree)
    ensures
        tree.model().children == tree_views(tree.children@),
{
    assert(tree.model().children =~= tree_views(tree.children@));
}

impl TypeTreeView {
    /// Whether the cursor is aligned to four bytes after this node.
    pub open spec fn needs_align(self) -> bool {
        self.flags & ALIGN_FLAG != 0
    }
}

/// The fields of a node in the recursive encoding, before its children: two
/// NUL-terminated names, then size, index, array flag, version, flags and
/// number of children, 32 bits each.
pub open spec fn spec_old_header(s: Seq<u8>, pos: int, e: Endianness) -> Parsed<(TypeTreeView, u32)> {
    match spec_read_cstring(s, pos) {
        Err(err) => Err(err),
        Ok((ty_name, p1)) => match spec_read_cstring(s, p1) {
            Err(err) => Err(err),
            Ok((name, p2)) => match spec_read_u32(s, p2, e) {
                Err(err) => Err(err),
                Ok((size, p3)) => match spec_read_u32(s, p3, e) {
                    Err(err) => Err(err),
                    Ok((index, p4)) => match spec_read_u32(s, p4, e) {
                        Err(err) => Err(err),
                        Ok((is_array, p5)) => match spec_read_u32(s, p5, e) {
                            Err(err) => Err(err),
                            Ok((version, p6)) => match spec_read_u32(s, p6, e) {
                                Err(err) => Err(err),
                                Ok((flags, p7)) => match spec_read_u32(s, p7, e) {
                                    Err(err) => Err(err),
                                    Ok((count, p8)) => Ok(
                                        (
                                            (
                                                TypeTreeView {
                                                    version,
                                                    is_array: is_array != 0,
                                                    ty_name,
                                                    name,
                                                    size,
                                                    index,
                                                    flags,
                                                    children: Seq::empty(),
                                                },
                                                count,
                                            ),
                                            p8,
                                        ),
                                    ),
                                },
                            },
                        },
                    },
                },
            },
        },
    }
}

/// A header takes at least 26 bytes.
pub proof fn lemma_old_header_advances(s: Seq<u8>, pos: int, e: Endianness)
    ensures
        spec_old_header(s, pos, e) matches Ok((_, next)) ==> pos + 26 <= next <= s.len(),
{
    if 0 <= pos <= s.len() {
        lemma_find_nul(s, pos);
        if find_nul(s, pos) < s.len() {
            lemma_find_nul(s, find_nul(s, pos) + 1);
        }
    }
}

/// The number of bytes from `pos` to the end of the buffer.
pub open spec fn remaining(s: Seq<u8>, pos: int) -> int {
    if pos <= s.len() {
        s.len() - pos
    } else {
        0
    }
}

/// A tree in the recursive encoding at `pos`: the header of the root, then
/// its children one after the other, each a tree of the same form.
pub open spec fn spec_old_tree(s: Seq<u8>, pos: int, e: Endianness) -> Parsed<TypeTreeView>
    decreases remaining(s, pos), 0int,
{
    match spec_old_header(s, pos, e) {
        Err(err) => Err(err),
        Ok(((node, count), p)) => {
            proof {
                lemma_old_header_advances(s, pos, e);
            }
            match spec_old_children(s, p, e, count as int) {
                Err(err) => Err(err),
                Ok((children, next)) => Ok(
                    (
                        TypeTreeView {
                            version: node.version,
                            is_array: node.is_array,
                            ty_name: node.ty_name,
                            name: node.name,
                            size: node.size,
                            index: node.index,
                            flags: node.flags,
                            children,
                        },
                        next,
                    ),
                ),
            }
        },
    }
}

/// `count` trees in the recursive encoding, one after the other. (A tree
/// never ends before it starts; the test for it only serves to show that the
/// definition is well founded.)
pub open spec fn spec_old_children(s: Seq<u8>, pos: int, e: Endianness, count: int) -> Parsed<
    Seq<TypeTreeView>,
>
    decreases remaining(s, pos), count,
{
    if count <= 0 {
        Ok((Seq::empty(), pos))
    } else {
        match spec_old_children(s, pos, e, count - 1) {
            Err(err) => Err(err),
            Ok((children, p)) => if p < pos {
                Err(ParseError::BadTypeTree)
            } else {
                match spec_old_tree(s, p, e) {
                    Err(err) => Err(err),
                    Ok((child, next)) => Ok((children.push(child), next)),
                }
            },
        }
    }
}

/// A tree in the recursive encoding takes at least 26 bytes, and a list of
/// trees ends at or after the position it starts at, with as many trees as
/// were asked for.
pub proof fn lemma_old_advances(s: Seq<u8>, pos: int, e: Endianness, count: int)
    requires
        0 <= count,
    ensures
        spec_old_tree(s, pos, e) matches Ok((_, next)) ==> pos + 26 <= next <= s.len(),
        spec_old_children(s, pos, e, count) matches Ok((children, next)) ==> pos <= next
            && children.len() == count && (pos <= s.len() ==> next <= s.len()),
    decreases remaining(s, pos), count,
{
    lemma_old_header_advances(s, pos, e);
    match spec_old_header(s, pos, e) {
        Err(err) => {},
        Ok(((node, n), p)) => {
            lemma_old_advances(s, p, e, n as int);
        },
    }
    if count > 0 {
        lemma_old_advances(s, pos, e, count - 1);
        match spec_old_children(s, pos, e, count - 1) {
            Err(err) => {},
            Ok((children, p)) => {
                if p >= pos {
                    lemma_old_advances(s, p, e, 0);
                }
            },
        }
    }
}

/// Where the first `i` children cannot be read, no larger number can.
pub proof fn lemma_old_children_fail(s: Seq<u8>, pos: int, e: Endianness, i: int, count: int)
    requires
        i <= count,
        spec_old_children(s, pos, e, i) is Err,
    ensures
        spec_old_children(s, pos, e, count) == spec_old_children(s, pos, e, i),
    decreases count - i,
{
    if i < count {
        lemma_old_children_fail(s, pos, e, i, count - 1);
    }
}

/// The text at `offset` of a string table, up to its NUL terminator. A
/// string without terminator makes the tree unusable.
pub open spec fn spec_table_string(table: Seq<u8>, offset: int) -> Result<Seq<char>, ParseError> {
    match spec_read_cstring(table, offset) {
        Ok((text, _)) => Ok(text),
        Err(_) => Err(ParseError::BadTypeTree),
    }
}

/// The name that a string offset of the flat encoding stands for. With the
/// top bit set, the low 31 bits index the shared table `strings`; else the
/// offset indexes the tree's own table `data`. An offset beyond its table
/// stands for the text `(null)`, and one at the very end of the shared table
/// for the empty text.
pub open spec fn spec_blob_string(offset: u32, data: Seq<u8>, strings: Seq<u8>) -> Result<
    Seq<char>,
    ParseError,
> {
    if offset >= 0x8000_0000 {
        if offset - 0x8000_0000 < strings.len() {
            spec_table_string(strings, offset - 0x8000_0000)
        } else if offset - 0x8000_0000 == strings.len() {
            Ok(Seq::empty())
        } else {
            Ok("(null)"@)
        }
    } else if offset < data.len() {
        spec_table_string(data, offset as int)
    } else {
        Ok("(null)"@)
    }
}

/// The size of one record of the flat encoding.
pub open spec fn spec_node_bytes(format: u32) -> int {
    if format >= 19 {
        32
    } else {
        24
    }
}

/// One record of the flat encoding at `pos`: version (16 bits), depth and
/// array flag (a byte each), the offsets of the two names, size, index and
/// flags (32 bits each), and padding up to the record size. Gives the depth
/// and the node, which has no children yet.
pub open spec fn spec_blob_record(
    s: Seq<u8>,
    pos: int,
    e: Endianness,
    node_bytes: int,
    data: Seq<u8>,
    strings: Seq<u8>,
) -> Parsed<(u8, TypeTreeView)> {
    match spec_read_u16(s, pos, e) {
        Err(err) => Err(err),
        Ok((version, p1)) => match spec_read_u8(s, p1) {
            Err(err) => Err(err),
            Ok((depth, p2)) => match spec_read_u8(s, p2) {
                Err(err) => Err(err),
                Ok((is_array, p3)) => match spec_read_u32(s, p3, e) {
                    Err(err) => Err(err),
                    Ok((ty_offset, p4)) => match spec_read_u32(s, p4, e) {
                        Err(err) => Err(err),
                        Ok((name_offset, p5)) => match spec_read_u32(s, p5, e) {
                            Err(err) => Err(err),
                            Ok((size, p6)) => match spec_read_u32(s, p6, e) {
                                Err(err) => Err(err),
                                Ok((index, p7)) => match spec_read_u32(s, p7, e) {
                                    Err(err) => Err(err),
                                    Ok((flags, p8)) => if pos + node_bytes > s.len() {
                                        Err(ParseError::TruncatedInput)
                                    } else {
                                        match spec_blob_string(ty_offset, data, strings) {
                                            Err(err) => Err(err),
                                            Ok(ty_name) => match spec_blob_string(
                                                name_offset,
                                                data,
                                                strings,
                                            ) {
                                                Err(err) => Err(err),
                                                Ok(name) => Ok(
                                                    (
                                                        (
                                                            depth,
                                                            TypeTreeView {
                                                                version: version as u32,
                                                                is_array: is_array != 0,
                                                                ty_name,
                                                                name,
                                                                size,
                                                                index,
                                                                flags,
                                                                children: Seq::empty(),
                                                            },
                                                        ),
                                                        pos + node_bytes,
                                                    ),
                                                ),
                                            },
                                        }
                                    },
                                },
                            },
                        },
                    },
                },
            },
        },
    }
}

/// `parent` with `child` as its new last child.
pub open spec fn with_child(parent: TypeTreeView, child: TypeTreeView) -> TypeTreeView {
    TypeTreeView {
        version: parent.version,
        is_array: parent.is_array,
        ty_name: parent.ty_name,
        name: parent.name,
        size: parent.size,
        index: parent.index,
        flags: parent.flags,
        children: parent.children.push(child),
    }
}

/// The stack of open nodes after its top was closed: the top becomes the last
/// child of the node below it.
pub open spec fn attach_top(stack: Seq<TypeTreeView>) -> Seq<TypeTreeView> {
    stack.subrange(0, stack.len() - 2).push(
        with_child(stack[stack.len() - 2], stack[stack.len() - 1]),
    )
}

/// The stack after nodes were closed until at most `depth` are open; the
/// bottom node is never closed.
pub open spec fn unwind(stack: Seq<TypeTreeView>, depth: int) -> Seq<TypeTreeView>
    decreases stack.len(),
{
    if stack.len() > depth && stack.len() >= 2 {
        unwind(attach_top(stack), depth)
    } else {
        stack
    }
}

/// The stack after a record of the given depth: deeper nodes are closed, and
/// the node of the record is opened. A record that would close the root is an
/// error.
pub open spec fn spec_push_record(stack: Seq<TypeTreeView>, depth: int, node: TypeTreeView) -> Result<
    Seq<TypeTreeView>,
    ParseError,
> {
    if unwind(stack, depth).len() > depth {
        Err(ParseError::BadTypeTree)
    } else {
        Ok(unwind(stack, depth).push(node))
    }
}

/// The stack of open nodes after the first `i` records from `pos` on, and
/// the position after them.
pub open spec fn spec_blob_stack(
    s: Seq<u8>,
    pos: int,
    e: Endianness,
    node_bytes: int,
    data: Seq<u8>,
    strings: Seq<u8>,
    i: int,
) -> Parsed<Seq<TypeTreeView>>
    decreases i,
{
    if i <= 0 {
        Ok((Seq::empty(), pos))
    } else {
        match spec_blob_stack(s, pos, e, node_bytes, data, strings, i - 1) {
            Err(err) => Err(err),
            Ok((stack, at)) => match spec_blob_record(s, at, e, node_bytes, data, strings) {
                Err(err) => Err(err),
                Ok(((depth, node), next)) => match spec_push_record(stack, depth as int, node) {
                    Err(err) => Err(err),
                    Ok(pushed) => Ok((pushed, next)),
                },
            },
        }
    }
}

/// Where the first `i` records cannot be read, no larger number can.
pub proof fn lemma_blob_stack_fails(
    s: Seq<u8>,
    pos: int,
    e: Endianness,
    node_bytes: int,
    data: Seq<u8>,
    strings: Seq<u8>,
    i: int,
    count: int,
)
    requires
        i <= count,
        spec_blob_stack(s, pos, e, node_bytes, data, strings, i) is Err,
    ensures
        spec_blob_stack(s, pos, e, node_bytes, data, strings, count) == spec_blob_stack(
            s,
            pos,
            e,
            node_bytes,
            data,
            strings,
            i,
        ),
    decreases count - i,
{
    if i < count {
        lemma_blob_stack_fails(s, pos, e, node_bytes, data, strings, i, count - 1);
    }
}

/// A tree in the flat encoding at `pos`: the number of records and the size
/// of the string table, the records in depth-first order, then the string
/// table. The tree is what is left when every node has been closed. A tree
/// without records is an error.
pub open spec fn spec_blob_tree(s: Seq<u8>, pos: int, e: Endianness, format: u32, strings: Seq<u8>) -> Parsed<
    TypeTreeView,
> {
    match spec_read_u32(s, pos, e) {
        Err(err) => Err(err),
        Ok((node_count, p1)) => match spec_read_u32(s, p1, e) {
            Err(err) => Err(err),
            Ok((buffer_bytes, p2)) => {
                let records_end = if format >= 19 {
                    p2 + node_count * 32
                } else {
                    p2 + node_count * 24
                };
                let end = records_end + buffer_bytes;
                if end > s.len() {
                    Err(ParseError::TruncatedInput)
                } else {
                    match spec_blob_stack(
                        s,
                        p2,
                        e,
                        spec_node_bytes(format),
                        s.subrange(records_end, end),
                        strings,
                        node_count as int,
                    ) {
                        Err(err) => Err(err),
                        Ok((stack, _)) => if stack.len() == 0 {
                            Err(ParseError::BadTypeTree)
                        } else {
                            Ok((unwind(stack, 1)[0], end))
                        },
                    }
                }
            },
        },
    }
}

/// Whether an asset format stores its trees in the flat encoding.
pub open spec fn is_blob_format(format: u32) -> bool {
    format == 10 || format >= 12
}

/// A tree at `pos`, in the encoding that the asset format calls for.
pub open spec fn spec_tree(s: Seq<u8>, pos: int, e: Endianness, format: u32, strings: Seq<u8>) -> Parsed<
    TypeTreeView,
> {
    if is_blob_format(format) {
        spec_blob_tree(s, pos, e, format, strings)
    } else {
        spec_old_tree(s, pos, e)
    }
}

/// Unwinding leaves at least one node where there was one, and no more than
/// `depth` where `depth` is not zero.
pub proof fn lemma_unwind_len(stack: Seq<TypeTreeView>, depth: int)
    ensures
        stack.len() > 0 ==> unwind(stack, depth).len() > 0,
        stack.len() == 0 ==> unwind(stack, depth).len() == 0,
        depth >= 1 ==> unwind(stack, depth).len() <= depth || unwind(stack, depth).len()
            == stack.len(),
        depth >= 1 && stack.len() >= 1 ==> unwind(stack, depth).len() <= vstd::math::max(depth, 1),
        unwind(stack, depth).len() <= stack.len(),
    decreases stack.len(),
{
    if stack.len() > depth && stack.len() >= 2 {
        lemma_unwind_len(attach_top(stack), depth);
    }
}

/// Reads the name that a string offset of the flat encoding stands for.
fn blob_string(offset: u32, data: &[u8], strings: &[u8]) -> (r: Result<String, ParseError>)
    ensures
        match r {
            Ok(text) => spec_blob_string(offset, data@, strings@) == Ok::<Seq<char>, ParseError>(
                text@,
            ),
            Err(e) => spec_blob_string(offset, data@, strings@) == Err::<Seq<char>, ParseError>(e),
        },
{
    if offset >= 0x8000_0000 {
        let shared = (offset - 0x8000_0000) as usize;
        if shared < strings.len() {
            match read_cstring(strings, shared) {
                Ok((text, _)) => Ok(text),
                Err(_) => Err(ParseError::BadTypeTree),
            }
        } else if shared == strings.len() {
            Ok(String::new())
        } else {
            Ok("(null)".to_string())
        }
    } else if (offset as usize) < data.len() {
        match read_cstring(data, offset as usize) {
            Ok((text, _)) => Ok(text),
            Err(_) => Err(ParseError::BadTypeTree),
        }
    } else {
        Ok("(null)".to_string())
    }
}

/// Closes open nodes until at most `depth` are left; the bottom node stays.
fn unwind_stack(stack: &mut Vec<TypeTree>, depth: usize)
    ensures
        tree_views(final(stack)@) == unwind(tree_views(old(stack)@), depth as int),
{
    while stack.len() > depth && stack.len() >= 2
        invariant
            unwind(tree_views(stack@), depth as int) == unwind(tree_views(old(stack)@), depth as int),
        decreases stack@.len(),
    {
        let ghost before = stack@;
        let child = stack.pop().unwrap();
        let mut parent = stack.pop().unwrap();
        let ghost parent_before = parent;
        parent.children.push(child);
        proof {
            lemma_children_views(parent_before);
            lemma_children_views(parent);
            assert(tree_views(parent_before.children@.push(child)) =~= tree_views(
                parent_before.children@,
            ).push(child.model()));
            assert(parent.model() == with_child(parent_before.model(), child.model()));
        }
        stack.push(parent);
        proof {
            assert(tree_views(stack@) =~= attach_top(tree_views(before)));
        }
    }
}

impl TypeTree {
    /// Whether the cursor is aligned to four bytes after this node.
    pub fn needs_align(&self) -> (r: bool)
        ensures
            r == self@.needs_align(),
    {
        self.flags & ALIGN_FLAG != 0
    }

    /// Reads the fields of a node in the recursive encoding, before its
    /// children.
    fn parse_old_header(input: &[u8], pos: usize, e: Endianness) -> (r: Result<
        ((TypeTree, u32), usize),
        ParseError,
    >)
        ensures
            match r {
                Ok(((node, count), next)) => spec_old_header(input@, pos as int, e) == Ok::<
                    ((TypeTreeView, u32), int),
                    ParseError,
                >(((node@, count), next as int)) && node.children@.len() == 0,
                Err(err) => spec_old_header(input@, pos as int, e) == Err::<
                    ((TypeTreeView, u32), int),
                    ParseError,
                >(err),
            },
    {
        let (ty_name, p1) = read_cstring(input, pos)?;
        let (name, p2) = read_cstring(input, p1)?;
        let (size, p3) = read_u32(input, p2, e)?;
        let (index, p4) = read_u32(input, p3, e)?;
        let (is_array, p5) = read_u32(input, p4, e)?;
        let (version, p6) = read_u32(input, p5, e)?;
        let (flags, p7) = read_u32(input, p6, e)?;
        let (count, p8) = read_u32(input, p7, e)?;
        let node = TypeTree {
            version,
            is_array: is_array != 0,
            ty_name,
            name,
            size,
            index,
            flags,
            children: Vec::new(),
        };
        proof {
            lemma_children_views(node);
            assert(tree_views(node.children@) =~= Seq::<TypeTreeView>::empty());
        }
        Ok(((node, count), p8))
    }

    /// Reads `count` trees in the recursive encoding, one after the other.
    fn parse_old_children(input: &[u8], pos: usize, e: Endianness, count: u32) -> (r: Result<
        (Vec<TypeTree>, usize),
        ParseError,
    >)
        requires
            pos <= input@.len(),
        ensures
            match r {
                Ok((children, next)) => spec_old_children(input@, pos as int, e, count as int)
                    == Ok::<(Seq<TypeTreeView>, int), ParseError>(
                    (tree_views(children@), next as int),
                ),
                Err(err) => spec_old_children(input@, pos as int, e, count as int) == Err::<
                    (Seq<TypeTreeView>, int),
                    ParseError,
                >(err),
            },
        decreases remaining(input@, pos as int), 1int,
    {
        let mut children: Vec<TypeTree> = Vec::new();
        assert(tree_views(children@) =~= Seq::<TypeTreeView>::empty());
        let mut cur = pos;
        let mut i: u32 = 0;
        while i < count
            invariant
                i <= count,
                pos <= cur,
                spec_old_children(input@, pos as int, e, i as int) == Ok::<
                    (Seq<TypeTreeView>, int),
                    ParseError,
                >((tree_views(children@), cur as int)),
            decreases count - i,
        {
            match TypeTree::parse_old(input, cur, e) {
                Ok((child, next)) => {
                    proof {
                        lemma_old_advances(input@, cur as int, e, 0);
                        assert(tree_views(children@.push(child)) =~= tree_views(children@).push(
                            child.model(),
                        ));
                    }
                    children.push(child);
                    cur = next;
                },
                Err(err) => {
                    proof {
                        lemma_old_children_fail(input@, pos as int, e, i + 1, count as int);
                    }
                    return Err(err);
                },
            }
            i += 1;
        }
        Ok((children, cur))
    }

    /// Reads a tree in the recursive encoding.
    pub fn parse_old(input: &[u8], pos: usize, e: Endianness) -> (r: Result<
        (TypeTree, usize),
        ParseError,
    >)
        ensures
            agrees(r, spec_old_tree(input@, pos as int, e)),
        decreases remaining(input@, pos as int), 0int,
    {
        let ((header, count), p) = TypeTree::parse_old_header(input, pos, e)?;
        proof {
            lemma_old_header_advances(input@, pos as int, e);
            lemma_model(header);
        }
        let (children, next) = TypeTree::parse_old_children(input, p, e, count)?;
        let tree = TypeTree {
            version: header.version,
            is_array: header.is_array,
            ty_name: header.ty_name,
            name: header.name,
            size: header.size,
            index: header.index,
            flags: header.flags,
            children,
        };
        proof {
            lemma_children_views(tree);
        }
        Ok((tree, next))
    }

    /// Reads one record of the flat encoding.
    fn parse_blob_record(
        input: &[u8],
        pos: usize,
        e: Endianness,
        node_bytes: usize,
        data: &[u8],
        strings: &[u8],
    ) -> (r: Result<((u8, TypeTree), usize), ParseError>)
        ensures
            match r {
                Ok(((depth, node), next)) => spec_blob_record(
                    input@,
                    pos as int,
                    e,
                    node_bytes as int,
                    data@,
                    strings@,
                ) == Ok::<((u8, TypeTreeView), int), ParseError>(((depth, node@), next as int)),
                Err(err) => spec_blob_record(
                    input@,
                    pos as int,
                    e,
                    node_bytes as int,
                    data@,
                    strings@,
                ) == Err::<((u8, TypeTreeView), int), ParseError>(err),
            },
    {
        let (version, p1) = read_u16(input, pos, e)?;
        let (depth, p2) = read_u8(input, p1)?;
        let (is_array, p3) = read_u8(input, p2)?;
        let (ty_offset, p4) = read_u32(input, p3, e)?;
        let (name_offset, p5) = read_u32(input, p4, e)?;
        let (size, p6) = read_u32(input, p5, e)?;
        let (index, p7) = read_u32(input, p6, e)?;
        let (flags, p8) = read_u32(input, p7, e)?;
        if input.len() - pos < node_bytes {
            return Err(ParseError::TruncatedInput);
        }
        let ty_name = blob_string(ty_offset, data, strings)?;
        let name = blob_string(name_offset, data, strings)?;
        let node = TypeTree {
            version: version as u32,
            is_array: is_array != 0,
            ty_name,
            name,
            size,
            index,
            flags,
            children: Vec::new(),
        };
        proof {
            lemma_children_views(node);
            assert(tree_views(node.children@) =~= Seq::<TypeTreeView>::empty());
        }
        Ok(((depth, node), pos + node_bytes))
    }

    /// Reads `node_count` records of the flat encoding and gives the stack of
    /// nodes that are open after them.
    fn parse_blob_records(
        input: &[u8],
        pos: usize,
        e: Endianness,
        node_bytes: usize,
        data: &[u8],
        strings: &[u8],
        node_count: u32,
    ) -> (r: Result<(Vec<TypeTree>, usize), ParseError>)
        ensures
            match r {
                Ok((stack, next)) => spec_blob_stack(
                    input@,
                    pos as int,
                    e,
                    node_bytes as int,
                    data@,
                    strings@,
                    node_count as int,
                ) == Ok::<(Seq<TypeTreeView>, int), ParseError>((tree_views(stack@), next as int)),
                Err(err) => spec_blob_stack(
                    input@,
                    pos as int,
                    e,
                    node_bytes as int,
                    data@,
                    strings@,
                    node_count as int,
                ) == Err::<(Seq<TypeTreeView>, int), ParseError>(err),
            },
    {
        let mut stack: Vec<TypeTree> = Vec::new();
        assert(tree_views(stack@) =~= Seq::<TypeTreeView>::empty());
        let mut cur = pos;
        let mut i: u32 = 0;
        while i < node_count
            invariant
                i <= node_count,
                spec_blob_stack(
                    input@,
                    pos as int,
                    e,
                    node_bytes as int,
                    data@,
                    strings@,
                    i as int,
                ) == Ok::<(Seq<TypeTreeView>, int), ParseError>((tree_views(stack@), cur as int)),
            decreases node_count - i,
        {
            let record = TypeTree::parse_blob_record(input, cur, e, node_bytes, data, strings);
            let ((depth, node), next) = match record {
                Ok(found) => found,
                Err(err) => {
                    proof {
                        lemma_blob_stack_fails(
                            input@,
                            pos as int,
                            e,
                            node_bytes as int,
                            data@,
                            strings@,
                            i + 1,
                            node_count as int,
                        );
                    }
                    return Err(err);
                },
            };
            unwind_stack(&mut stack, depth as usize);
            if stack.len() > depth as usize {
                proof {
                    lemma_blob_stack_fails(
                        input@,
                        pos as int,
                        e,
                        node_bytes as int,
                        data@,
                        strings@,
                        i + 1,
                        node_count as int,
                    );
                }
                return Err(ParseError::BadTypeTree);
            }
            proof {
                assert(tree_views(stack@.push(node)) =~= tree_views(stack@).push(node.model()));
            }
            stack.push(node);
            cur = next;
            i += 1;
        }
        Ok((stack, cur))
    }

    /// Reads a tree in the flat encoding; `strings` is the shared string
    /// table.
    pub fn parse_blob(input: &[u8], pos: usize, e: Endianness, format: u32, strings: &[u8]) -> (r:
        Result<(TypeTree, usize), ParseError>)
        ensures
            agrees(r, spec_blob_tree(input@, pos as int, e, format, strings@)),
    {
        let (node_count, p1) = read_u32(input, pos, e)?;
        let (buffer_bytes, p2) = read_u32(input, p1, e)?;
        let node_bytes: usize = if format >= 19 {
            32
        } else {
            24
        };
        let records_len: u64 = if format >= 19 {
            node_count as u64 * 32
        } else {
            node_count as u64 * 24
        };
        let rest = (input.len() - p2) as u64;
        if records_len > rest || buffer_bytes as u64 > rest - records_len {
            return Err(ParseError::TruncatedInput);
        }
        let records_end = p2 + records_len as usize;
        let end = records_end + buffer_bytes as usize;
        let data = vstd::slice::slice_subrange(input, records_end, end);
        let (mut stack, _) = TypeTree::parse_blob_records(
            input,
            p2,
            e,
            node_bytes,
            data,
            strings,
            node_count,
        )?;
        if stack.len() == 0 {
            return Err(ParseError::BadTypeTree);
        }
        proof {
            lemma_unwind_len(tree_views(stack@), 1);
        }
        unwind_stack(&mut stack, 1);
        let root = stack.pop().unwrap();
        Ok((root, end))
    }

    /// Reads a tree in the encoding that the asset format calls for.
    pub fn parse(input: &[u8], pos: usize, e: Endianness, format: u32, strings: &[u8]) -> (r: Result<
        (TypeTree, usize),
        ParseError,
    >)
        ensures
            agrees(r, spec_tree(input@, pos as int, e, format, strings@)),
    {
        if format == 10 || format >= 12 {
            TypeTree::parse_blob(input, pos, e, format, strings)
        } else {
            TypeTree::parse_old(input, pos, e)
        }
    }
}

/// A decoded value. Floating-point numbers are held as their IEEE-754 bits;
/// strings are raw bytes, whose reading as text is left to the caller.
#[derive(Debug, PartialEq, Eq)]
pub enum Data {
    GenericPrimitive { ty_name: String, data: Vec<u8> },
    GenericArray(Vec<Data>),
    GenericStruct { ty_name: String, fields: Vec<(String, Data)> },
    Bool(bool),
    UInt8(u8),
    UInt16(u16),
    UInt32(u32),
    UInt64(u64),
    SInt8(i8),
    SInt16(i16),
    SInt32(i32),
    SInt64(i64),
    Float(u32),
    Double(u64),
    String(Vec<u8>),
    UInt8Array(Vec<u8>),
    Pair(Box<Data>, Box<Data>),
}

/// A decoded value as plain values. The fields of a struct stand in the order
/// of the tree; a name that occurs twice means its last entry.
pub enum DataView {
    GenericPrimitive { ty_name: Seq<char>, data: Seq<u8> },
    GenericArray(Seq<DataView>),
    GenericStruct { ty_name: Seq<char>, fields: Seq<(Seq<char>, DataView)> },
    Bool(bool),
    UInt8(u8),
    UInt16(u16),
    UInt32(u32),
    UInt64(u64),
    SInt8(i8),
    SInt16(i16),
    SInt32(i32),
    SInt64(i64),
    Float(u32),
    Double(u64),
    String(Seq<u8>),
    UInt8Array(Seq<u8>),
    Pair(Box<DataView>, Box<DataView>),
}

impl Data {
    /// The value as plain values, part by part.
    pub open spec fn model(&self) -> DataView
        decreases self,
    {
        match self {
            Data::GenericPrimitive { ty_name, data } => DataView::GenericPrimitive {
                ty_name: ty_name@,
                data: data@,
            },
            Data::GenericArray(items) => DataView::GenericArray(
                Seq::new(
                    items.len() as nat,
                    |i: int|
                        if 0 <= i < items.len() {
                            items[i].model()
                        } else {
                            arbitrary()
                        },
                ),
            ),
            Data::GenericStruct { ty_name, fields } => DataView::GenericStruct {
                ty_name: ty_name@,
                fields: Seq::new(
                    fields.len() as nat,
                    |i: int|
                        if 0 <= i < fields.len() {
                            (fields[i].0@, fields[i].1.model())
                        } else {
                            arbitrary()
                        },
                ),
            },
            Data::Bool(v) => DataView::Bool(*v),
            Data::UInt8(v) => DataView::UInt8(*v),
            Data::UInt16(v) => DataView::UInt16(*v),
            Data::UInt32(v) => DataView::UInt32(*v),
            Data::UInt64(v) => DataView::UInt64(*v),
            Data::SInt8(v) => DataView::SInt8(*v),
            Data::SInt16(v) => DataView::SInt16(*v),
            Data::SInt32(v) => DataView::SInt32(*v),
            Data::SInt64(v) => DataView::SInt64(*v),
            Data::Float(v) => DataView::Float(*v),
            Data::Double(v) => DataView::Double(*v),
            Data::String(bytes) => DataView::String(bytes@),
            Data::UInt8Array(bytes) => DataView::UInt8Array(bytes@),
            Data::Pair(first, second) => DataView::Pair(
                Box::new((**first).model()),
                Box::new((**second).model()),
            ),
        }
    }
}

impl View for Data {
    type V = DataView;

    open spec fn view(&self) -> DataView {
        self.model()
    }
}

/// The views of a list of values.
pub open spec fn data_views(items: Seq<Data>) -> Seq<DataView> {
    items.map_values(|d: Data| d.model())
}

/// The views of a list of named values.
pub open spec fn field_views(fields: Seq<(String, Data)>) -> Seq<(Seq<char>, DataView)> {
    fields.map_values(|f: (String, Data)| (f.0@, f.1.model()))
}

/// The value of the last field called `name`.
pub open spec fn spec_field(fields: Seq<(Seq<char>, DataView)>, name: Seq<char>) -> Option<DataView>
    decreases fields.len(),
{
    if fields.len() == 0 {
        None
    } else if fields.last().0 == name {
        Some(fields.last().1)
    } else {
        spec_field(fields.drop_last(), name)
    }
}

impl DataView {
    /// The field `name` of a struct; nothing for any other value.
    pub open spec fn field(self, name: Seq<char>) -> Option<DataView> {
        match self {
            DataView::GenericStruct { ty_name, fields } => spec_field(fields, name),
            _ => None,
        }
    }
}

/// A byte string with its length before it, as 32 bits.
pub open spec fn spec_read_bytes(s: Seq<u8>, pos: int, e: Endianness) -> Parsed<Seq<u8>> {
    match spec_read_u32(s, pos, e) {
        Err(err) => Err(err),
        Ok((length, p)) => spec_take(s, p, length as int),
    }
}

/// The value of a leaf of the given type name, made of the bytes of the leaf.
/// A name that is none of the known ones keeps the bytes as they are.
pub open spec fn spec_leaf(ty_name: Seq<char>, bytes: Seq<u8>, e: Endianness) -> Result<
    DataView,
    ParseError,
> {
    if ty_name == "bool"@ {
        match spec_read_u8(bytes, 0) {
            Ok((v, _)) => Ok(DataView::Bool(v != 0)),
            Err(err) => Err(err),
        }
    } else if ty_name == "UInt8"@ {
        match spec_read_u8(bytes, 0) {
            Ok((v, _)) => Ok(DataView::UInt8(v)),
            Err(err) => Err(err),
        }
    } else if ty_name == "UInt16"@ {
        match spec_read_u16(bytes, 0, e) {
            Ok((v, _)) => Ok(DataView::UInt16(v)),
            Err(err) => Err(err),
        }
    } else if ty_name == "UInt32"@ || ty_name == "unsigned int"@ {
        match spec_read_u32(bytes, 0, e) {
            Ok((v, _)) => Ok(DataView::UInt32(v)),
            Err(err) => Err(err),
        }
    } else if ty_name == "UInt64"@ {
        match spec_read_u64(bytes, 0, e) {
            Ok((v, _)) => Ok(DataView::UInt64(v)),
            Err(err) => Err(err),
        }
    } else if ty_name == "SInt8"@ {
        match spec_read_i8(bytes, 0) {
            Ok((v, _)) => Ok(DataView::SInt8(v)),
            Err(err) => Err(err),
        }
    } else if ty_name == "SInt16"@ {
        match spec_read_i16(bytes, 0, e) {
            Ok((v, _)) => Ok(DataView::SInt16(v)),
            Err(err) => Err(err),
        }
    } else if ty_name == "SInt32"@ || ty_name == "int"@ {
        match spec_read_i32(bytes, 0, e) {
            Ok((v, _)) => Ok(DataView::SInt32(v)),
            Err(err) => Err(err),
        }
    } else if ty_name == "SInt64"@ {
        match spec_read_i64(bytes, 0, e) {
            Ok((v, _)) => Ok(DataView::SInt64(v)),
            Err(err) => Err(err),
        }
    } else if ty_name == "float"@ {
        match spec_read_u32(bytes, 0, e) {
            Ok((v, _)) => Ok(DataView::Float(v)),
            Err(err) => Err(err),
        }
    } else if ty_name == "double"@ {
        match spec_read_u64(bytes, 0, e) {
            Ok((v, _)) => Ok(DataView::Double(v)),
            Err(err) => Err(err),
        }
    } else {
        Ok(DataView::GenericPrimitive { ty_name, data: bytes })
    }
}

/// A leaf at `pos`: `size` bytes, which for `float` and `double` begin at the
/// next aligned position.
pub open spec fn spec_read_leaf(t: TypeTreeView, s: Seq<u8>, pos: int, e: Endianness, offset: int) -> Parsed<
    DataView,
> {
    let start = if t.ty_name == "float"@ || t.ty_name == "double"@ {
        spec_align(offset, s.len() as int, pos)
    } else {
        Ok(pos)
    };
    match start {
        Err(err) => Err(err),
        Ok(p) => match spec_take(s, p, t.size as int) {
            Err(err) => Err(err),
            Ok((bytes, next)) => match spec_leaf(t.ty_name, bytes, e) {
                Err(err) => Err(err),
                Ok(data) => Ok((data, next)),
            },
        },
    }
}

/// Whether the cursor is aligned after the node: where the node asks for it,
/// and after a `string` also where its only child asks for it.
pub open spec fn spec_align_after(t: TypeTreeView) -> bool {
    t.needs_align() || (t.ty_name == "string"@ && t.children.len() == 1
        && t.children[0].needs_align())
}

/// What was read, with the cursor moved to the next aligned position where
/// `wanted`.
pub open spec fn spec_finish(wanted: bool, len: int, offset: int, body: Parsed<DataView>) -> Parsed<
    DataView,
> {
    match body {
        Err(err) => Err(err),
        Ok((data, p)) => if wanted {
            match spec_align(offset, len, p) {
                Ok(next) => Ok((data, next)),
                Err(err) => Err(err),
            }
        } else {
            Ok((data, p))
        },
    }
}

/// The value that the tree `t` reads at `pos` of `s`, where position 0 has
/// the logical offset `offset`, and the position after it.
///
/// The shape of the node decides, in this order: a `string` is a byte string
/// with its length before it; a `pair` is its two children in a row; a node
/// whose first child is an array is that child; an array is a length and
/// that many elements, or that many bytes where the elements are `UInt8`; a
/// node without children is a leaf; any other node is a struct of its
/// children in a row. After the value the cursor is aligned where the node
/// asks for it.
pub open spec fn spec_read(t: TypeTreeView, s: Seq<u8>, pos: int, e: Endianness, offset: int) -> Parsed<
    DataView,
>
    decreases t, 3int, 0int,
{
    spec_finish(spec_align_after(t), s.len() as int, offset, spec_read_body(t, s, pos, e, offset))
}

/// The value of `spec_read` before the cursor is aligned.
pub open spec fn spec_read_body(t: TypeTreeView, s: Seq<u8>, pos: int, e: Endianness, offset: int) -> Parsed<
    DataView,
>
    decreases t, 2int, 0int,
{
    if t.ty_name == "string"@ {
        if t.children.len() != 1 {
            Err(ParseError::BadTypeTree)
        } else {
            match spec_read_bytes(s, pos, e) {
                Err(err) => Err(err),
                Ok((bytes, next)) => Ok((DataView::String(bytes), next)),
            }
        }
    } else if t.ty_name == "pair"@ {
        if t.children.len() != 2 {
            Err(ParseError::BadTypeTree)
        } else {
            match spec_read(t.children[0], s, pos, e, offset) {
                Err(err) => Err(err),
                Ok((first, p)) => match spec_read(t.children[1], s, p, e, offset) {
                    Err(err) => Err(err),
                    Ok((second, next)) => Ok(
                        (DataView::Pair(Box::new(first), Box::new(second)), next),
                    ),
                },
            }
        }
    } else if t.children.len() > 0 && t.children[0].is_array {
        spec_read(t.children[0], s, pos, e, offset)
    } else if t.is_array {
        if t.children.len() != 2 {
            Err(ParseError::BadTypeTree)
        } else if t.children[1].ty_name == "UInt8"@ {
            match spec_read_bytes(s, pos, e) {
                Err(err) => Err(err),
                Ok((bytes, next)) => Ok((DataView::UInt8Array(bytes), next)),
            }
        } else {
            match spec_read_u32(s, pos, e) {
                Err(err) => Err(err),
                Ok((length, p)) => match spec_read_elements(
                    t.children[1],
                    s,
                    p,
                    e,
                    offset,
                    length as int,
                ) {
                    Err(err) => Err(err),
                    Ok((items, next)) => Ok((DataView::GenericArray(items), next)),
                },
            }
        }
    } else if t.children.len() == 0 {
        spec_read_leaf(t, s, pos, e, offset)
    } else {
        match spec_read_fields(t, s, pos, e, offset, t.children.len() as int) {
            Err(err) => Err(err),
            Ok((fields, next)) => Ok(
                (DataView::GenericStruct { ty_name: t.ty_name, fields }, next),
            ),
        }
    }
}

/// `count` values of the tree `t` in a row.
pub open spec fn spec_read_elements(
    t: TypeTreeView,
    s: Seq<u8>,
    pos: int,
    e: Endianness,
    offset: int,
    count: int,
) -> Parsed<Seq<DataView>>
    decreases t, 4int, count,
{
    if count <= 0 {
        Ok((Seq::empty(), pos))
    } else {
        match spec_read_elements(t, s, pos, e, offset, count - 1) {
            Err(err) => Err(err),
            Ok((items, p)) => match spec_read(t, s, p, e, offset) {
                Err(err) => Err(err),
                Ok((item, next)) => Ok((items.push(item), next)),
            },
        }
    }
}

/// The values of the first `count` children of `t` in a row, each under the
/// name of its child.
pub open spec fn spec_read_fields(
    t: TypeTreeView,
    s: Seq<u8>,
    pos: int,
    e: Endianness,
    offset: int,
    count: int,
) -> Parsed<Seq<(Seq<char>, DataView)>>
    decreases t, 1int, count,
{
    if count <= 0 || count > t.children.len() {
        Ok((Seq::empty(), pos))
    } else {
        match spec_read_fields(t, s, pos, e, offset, count - 1) {
            Err(err) => Err(err),
            Ok((fields, p)) => match spec_read(t.children[count - 1], s, p, e, offset) {
                Err(err) => Err(err),
                Ok((data, next)) => Ok((fields.push((t.children[count - 1].name, data)), next)),
            },
        }
    }
}

/// Where the first `i` elements cannot be read, no larger number can.
pub proof fn lemma_elements_fail(
    t: TypeTreeView,
    s: Seq<u8>,
    pos: int,
    e: Endianness,
    offset: int,
    i: int,
    count: int,
)
    requires
        i <= count,
        spec_read_elements(t, s, pos, e, offset, i) is Err,
    ensures
        spec_read_elements(t, s, pos, e, offset, count) == spec_read_elements(
            t,
            s,
            pos,
            e,
            offset,
            i,
        ),
    decreases count - i,
{
    if i < count {
        lemma_elements_fail(t, s, pos, e, offset, i, count - 1);
    }
}

/// Where the first `i` fields cannot be read, no larger number can.
pub proof fn lemma_fields_fail(
    t: TypeTreeView,
    s: Seq<u8>,
    pos: int,
    e: Endianness,
    offset: int,
    i: int,
    count: int,
)
    requires
        0 <= i <= count <= t.children.len(),
        spec_read_fields(t, s, pos, e, offset, i) is Err,
    ensures
        spec_read_fields(t, s, pos, e, offset, count) == spec_read_fields(t, s, pos, e, offset, i),
    decreases count - i,
{
    if i < count {
        lemma_fields_fail(t, s, pos, e, offset, i, count - 1);
    }
}

/// After a node that asks for alignment the cursor stands at a multiple of
/// four of the logical offset.
pub proof fn lemma_read_aligned(t: TypeTreeView, s: Seq<u8>, pos: int, e: Endianness, offset: int)
    ensures
        spec_read(t, s, pos, e, offset) matches Ok((_, next)) ==> (t.needs_align() ==> (offset
            + next) % 4 == 0),
{
}

/// The names of the leaf types that have a variant of their own.
pub open spec fn is_known_leaf(ty_name: Seq<char>) -> bool {
    ||| ty_name == "bool"@
    ||| ty_name == "UInt8"@
    ||| ty_name == "UInt16"@
    ||| ty_name == "UInt32"@
    ||| ty_name == "unsigned int"@
    ||| ty_name == "UInt64"@
    ||| ty_name == "SInt8"@
    ||| ty_name == "SInt16"@
    ||| ty_name == "SInt32"@
    ||| ty_name == "int"@
    ||| ty_name == "SInt64"@
    ||| ty_name == "float"@
    ||| ty_name == "double"@
}

/// The names of the leaf types are all different from each other and from
/// the names `string` and `pair`.
pub proof fn lemma_leaf_names_differ()
    ensures
        "bool"@.len() == 4 && "bool"@[0] == 'b',
        "UInt8"@.len() == 5 && "UInt8"@[0] == 'U',
        "SInt8"@.len() == 5 && "SInt8"@[0] == 'S',
        "float"@.len() == 5 && "float"@[0] == 'f',
        "UInt16"@.len() == 6 && "UInt16"@[0] == 'U' && "UInt16"@[4] == '1',
        "UInt32"@.len() == 6 && "UInt32"@[0] == 'U' && "UInt32"@[4] == '3',
        "UInt64"@.len() == 6 && "UInt64"@[0] == 'U' && "UInt64"@[4] == '6',
        "SInt16"@.len() == 6 && "SInt16"@[0] == 'S' && "SInt16"@[4] == '1',
        "SInt32"@.len() == 6 && "SInt32"@[0] == 'S' && "SInt32"@[4] == '3',
        "SInt64"@.len() == 6 && "SInt64"@[0] == 'S' && "SInt64"@[4] == '6',
        "double"@.len() == 6 && "double"@[0] == 'd',
        "string"@.len() == 6 && "string"@[0] == 's',
        "pair"@.len() == 4 && "pair"@[0] == 'p',
        "int"@.len() == 3,
        "unsigned int"@.len() == 12,
{
    reveal_strlit("bool");
    reveal_strlit("UInt8");
    reveal_strlit("SInt8");
    reveal_strlit("float");
    reveal_strlit("UInt16");
    reveal_strlit("UInt32");
    reveal_strlit("UInt64");
    reveal_strlit("SInt16");
    reveal_strlit("SInt32");
    reveal_strlit("SInt64");
    reveal_strlit("double");
    reveal_strlit("string");
    reveal_strlit("pair");
    reveal_strlit("int");
    reveal_strlit("unsigned int");
}

/// A leaf whose name is one of the known ones yields the variant of that
/// name, and a leaf of any other name yields a generic primitive with its
/// bytes as they are.
pub proof fn lemma_leaf_dispatch(t: TypeTreeView, s: Seq<u8>, pos: int, e: Endianness, offset: int)
    requires
        t.children.len() == 0,
    ensures
        spec_read(t, s, pos, e, offset) matches Ok((data, _)) ==> {
            &&& t.ty_name == "bool"@ ==> data is Bool
            &&& t.ty_name == "UInt8"@ ==> data is UInt8
            &&& t.ty_name == "UInt16"@ ==> data is UInt16
            &&& t.ty_name == "UInt32"@ || t.ty_name == "unsigned int"@ ==> data is UInt32
            &&& t.ty_name == "UInt64"@ ==> data is UInt64
            &&& t.ty_name == "SInt8"@ ==> data is SInt8
            &&& t.ty_name == "SInt16"@ ==> data is SInt16
            &&& t.ty_name == "SInt32"@ || t.ty_name == "int"@ ==> data is SInt32
            &&& t.ty_name == "SInt64"@ ==> data is SInt64
            &&& t.ty_name == "float"@ ==> data is Float
            &&& t.ty_name == "double"@ ==> data is Double
            &&& !is_known_leaf(t.ty_name) ==> data is GenericPrimitive
                && data->GenericPrimitive_ty_name == t.ty_name
        },
{
    lemma_leaf_names_differ();
}

/// Reads a byte string with its length before it.
fn read_bytes(input: &[u8], pos: usize, e: Endianness) -> (r: Result<(Vec<u8>, usize), ParseError>)
    ensures
        agrees(r, spec_read_bytes(input@, pos as int, e)),
{
    let (length, p) = read_u32(input, pos, e)?;
    if (length as u64) > (usize::MAX as u64) {
        return Err(ParseError::TruncatedInput);
    }
    let (bytes, next) = take(input, p, length as usize)?;
    Ok((vstd::slice::slice_to_vec(bytes), next))
}

/// Makes the value of a leaf from its bytes.
fn read_leaf_value(ty_name: &String, bytes: &[u8], e: Endianness) -> (r: Result<Data, ParseError>)
    ensures
        match r {
            Ok(data) => spec_leaf(ty_name@, bytes@, e) == Ok::<DataView, ParseError>(data@),
            Err(err) => spec_leaf(ty_name@, bytes@, e) == Err::<DataView, ParseError>(err),
        },
{
    let name = ty_name.as_str();
    if str_eq(name, "bool") {
        let (v, _) = read_u8(bytes, 0)?;
        Ok(Data::Bool(v != 0))
    } else if str_eq(name, "UInt8") {
        let (v, _) = read_u8(bytes, 0)?;
        Ok(Data::UInt8(v))
    } else if str_eq(name, "UInt16") {
        let (v, _) = read_u16(bytes, 0, e)?;
        Ok(Data::UInt16(v))
    } else if str_eq(name, "UInt32") || str_eq(name, "unsigned int") {
        let (v, _) = read_u32(bytes, 0, e)?;
        Ok(Data::UInt32(v))
    } else if str_eq(name, "UInt64") {
        let (v, _) = read_u64(bytes, 0, e)?;
        Ok(Data::UInt64(v))
    } else if str_eq(name, "SInt8") {
        let (v, _) = read_i8(bytes, 0)?;
        Ok(Data::SInt8(v))
    } else if str_eq(name, "SInt16") {
        let (v, _) = read_i16(bytes, 0, e)?;
        Ok(Data::SInt16(v))
    } else if str_eq(name, "SInt32") || str_eq(name, "int") {
        let (v, _) = read_i32(bytes, 0, e)?;
        Ok(Data::SInt32(v))
    } else if str_eq(name, "SInt64") {
        let (v, _) = read_i64(bytes, 0, e)?;
        Ok(Data::SInt64(v))
    } else if str_eq(name, "float") {
        let (v, _) = read_u32(bytes, 0, e)?;
        Ok(Data::Float(v))
    } else if str_eq(name, "double") {
        let (v, _) = read_u64(bytes, 0, e)?;
        Ok(Data::Double(v))
    } else {
        Ok(Data::GenericPrimitive { ty_name: ty_name.clone(), data: vstd::slice::slice_to_vec(bytes) })
    }
}

impl TypeTree {
    /// Reads a leaf.
    fn read_leaf(&self, input: &[u8], pos: usize, e: Endianness, offset: u64) -> (r: Result<
        (Data, usize),
        ParseError,
    >)
        ensures
            agrees(r, spec_read_leaf(self@, input@, pos as int, e, offset as int)),
    {
        let name = self.ty_name.as_str();
        let start = if str_eq(name, "float") || str_eq(name, "double") {
            align(offset, input, pos)?
        } else {
            pos
        };
        let (bytes, next) = take(input, start, self.size as usize)?;
        let data = read_leaf_value(&self.ty_name, bytes, e)?;
        Ok((data, next))
    }

    /// Reads `count` values of this tree in a row.
    fn read_elements(&self, input: &[u8], pos: usize, e: Endianness, offset: u64, count: u32) -> (r:
        Result<(Vec<Data>, usize), ParseError>)
        ensures
            match r {
                Ok((items, next)) => spec_read_elements(
                    self@,
                    input@,
                    pos as int,
                    e,
                    offset as int,
                    count as int,
                ) == Ok::<(Seq<DataView>, int), ParseError>((data_views(items@), next as int)),
                Err(err) => spec_read_elements(
                    self@,
                    input@,
                    pos as int,
                    e,
                    offset as int,
                    count as int,
                ) == Err::<(Seq<DataView>, int), ParseError>(err),
            },
        decreases self, 4int,
    {
        let mut items: Vec<Data> = Vec::new();
        assert(data_views(items@) =~= Seq::<DataView>::empty());
        let mut cur = pos;
        let mut i: u32 = 0;
        while i < count
            invariant
                i <= count,
                spec_read_elements(self@, input@, pos as int, e, offset as int, i as int) == Ok::<
                    (Seq<DataView>, int),
                    ParseError,
                >((data_views(items@), cur as int)),
            decreases count - i,
        {
            match self.read_at(input, cur, e, offset) {
                Ok((item, next)) => {
                    proof {
                        assert(data_views(items@.push(item)) =~= data_views(items@).push(
                            item.model(),
                        ));
                    }
                    items.push(item);
                    cur = next;
                },
                Err(err) => {
                    proof {
                        lemma_elements_fail(
                            self@,
                            input@,
                            pos as int,
                            e,
                            offset as int,
                            i + 1,
                            count as int,
                        );
                    }
                    return Err(err);
                },
            }
            i += 1;
        }
        Ok((items, cur))
    }

    /// Reads the values of the children of this tree in a row.
    fn read_fields(&self, input: &[u8], pos: usize, e: Endianness, offset: u64) -> (r: Result<
        (Vec<(String, Data)>, usize),
        ParseError,
    >)
        ensures
            match r {
                Ok((fields, next)) => spec_read_fields(
                    self@,
                    input@,
                    pos as int,
                    e,
                    offset as int,
                    self@.children.len() as int,
                ) == Ok::<(Seq<(Seq<char>, DataView)>, int), ParseError>(
                    (field_views(fields@), next as int),
                ),
                Err(err) => spec_read_fields(
                    self@,
                    input@,
                    pos as int,
                    e,
                    offset as int,
                    self@.children.len() as int,
                ) == Err::<(Seq<(Seq<char>, DataView)>, int), ParseError>(err),
            },
        decreases self, 1int,
    {
        let mut fields: Vec<(String, Data)> = Vec::new();
        assert(field_views(fields@) =~= Seq::<(Seq<char>, DataView)>::empty());
        let mut cur = pos;
        let mut i: usize = 0;
        while i < self.children.len()
            invariant
                i <= self.children@.len(),
                self@.children.len() == self.children@.len(),
                spec_read_fields(self@, input@, pos as int, e, offset as int, i as int) == Ok::<
                    (Seq<(Seq<char>, DataView)>, int),
                    ParseError,
                >((field_views(fields@), cur as int)),
            decreases self.children@.len() - i,
        {
            let child = &self.children[i];
            match child.read_at(input, cur, e, offset) {
                Ok((data, next)) => {
                    let name = child.name.clone();
                    proof {
                        assert(field_views(fields@.push((name, data))) =~= field_views(fields@).push(
                            (name@, data.model()),
                        ));
                    }
                    fields.push((name, data));
                    cur = next;
                },
                Err(err) => {
                    proof {
                        lemma_fields_fail(
                            self@,
                            input@,
                            pos as int,
                            e,
                            offset as int,
                            i + 1,
                            self@.children.len() as int,
                        );
                    }
                    return Err(err);
                },
            }
            i += 1;
        }
        Ok((fields, cur))
    }

    /// Reads the value before the cursor is aligned.
    fn read_body(&self, input: &[u8], pos: usize, e: Endianness, offset: u64) -> (r: Result<
        (Data, usize),
        ParseError,
    >)
        ensures
            agrees(r, spec_read_body(self@, input@, pos as int, e, offset as int)),
        decreases self, 2int,
    {
        let name = self.ty_name.as_str();
        proof {
            lemma_model(*self);
            if self.children@.len() > 0 {
                lemma_model(self.children@[0]);
            }
            if self.children@.len() > 1 {
                lemma_model(self.children@[1]);
            }
        }
        if str_eq(name, "string") {
            if self.children.len() != 1 {
                return Err(ParseError::BadTypeTree);
            }
            let (bytes, next) = read_bytes(input, pos, e)?;
            Ok((Data::String(bytes), next))
        } else if str_eq(name, "pair") {
            if self.children.len() != 2 {
                return Err(ParseError::BadTypeTree);
            }
            let (first, p) = self.children[0].read_at(input, pos, e, offset)?;
            let (second, next) = self.children[1].read_at(input, p, e, offset)?;
            Ok((Data::Pair(Box::new(first), Box::new(second)), next))
        } else if self.children.len() > 0 && self.children[0].is_array {
            self.children[0].read_at(input, pos, e, offset)
        } else if self.is_array {
            if self.children.len() != 2 {
                return Err(ParseError::BadTypeTree);
            }
            if str_eq(self.children[1].ty_name.as_str(), "UInt8") {
                let (bytes, next) = read_bytes(input, pos, e)?;
                Ok((Data::UInt8Array(bytes), next))
            } else {
                let (length, p) = read_u32(input, pos, e)?;
                let (items, next) = self.children[1].read_elements(input, p, e, offset, length)?;
                let data = Data::GenericArray(items);
                proof {
                    assert(data.model()->GenericArray_0 =~= data_views(items@));
                }
                Ok((data, next))
            }
        } else if self.children.len() == 0 {
            self.read_leaf(input, pos, e, offset)
        } else {
            let (fields, next) = self.read_fields(input, pos, e, offset)?;
            let data = Data::GenericStruct { ty_name: self.ty_name.clone(), fields };
            proof {
                assert(data.model()->GenericStruct_fields =~= field_views(fields@));
            }
            Ok((data, next))
        }
    }

    /// Reads the value of this tree at `pos` of `input`, where position 0 has
    /// the logical offset `offset`.
    pub fn read_at(&self, input: &[u8], pos: usize, e: Endianness, offset: u64) -> (r: Result<
        (Data, usize),
        ParseError,
    >)
        ensures
            agrees(r, spec_read(self@, input@, pos as int, e, offset as int)),
        decreases self, 3int,
    {
        proof {
            lemma_model(*self);
            if self.children@.len() > 0 {
                lemma_model(self.children@[0]);
            }
        }
        let wanted = self.needs_align() || (str_eq(self.ty_name.as_str(), "string")
            && self.children.len() == 1 && self.children[0].needs_align());
        let (data, p) = self.read_body(input, pos, e, offset)?;
        if wanted {
            let next = align(offset, input, p)?;
            Ok((data, next))
        } else {
            Ok((data, p))
        }
    }

    /// Reads the value of this tree from the start of `input`, whose first
    /// byte has the logical offset `offset`. Gives the value and the number
    /// of bytes it takes.
    pub fn read(&self, input: &[u8], endianness: Endianness, offset: u64) -> (r: Result<
        (Data, usize),
        ParseError,
    >)
        ensures
            agrees(r, spec_read(self@, input@, 0, endianness, offset as int)),
    {
        self.read_at(input, 0, endianness, offset)
    }
}

impl Data {
    /// A copy of the value that shares nothing with it.
    #[verifier::loop_isolation(false)]
    pub fn clone_owned(&self) -> (r: Data)
        ensures
            r@ == self@,
        decreases self,
    {
        match self {
            Data::GenericPrimitive { ty_name, data } => Data::GenericPrimitive {
                ty_name: ty_name.clone(),
                data: vstd::slice::slice_to_vec(data.as_slice()),
            },
            Data::GenericArray(items) => {
                let mut copies: Vec<Data> = Vec::new();
                let mut i: usize = 0;
                while i < items.len()
                    invariant
                        i <= items@.len(),
                        copies@.len() == i,
                        forall|k: int| 0 <= k < i ==> copies@[k].model() == items@[k].model(),
                    decreases items@.len() - i,
                {
                    let copy = items[i].clone_owned();
                    copies.push(copy);
                    i += 1;
                }
                let r = Data::GenericArray(copies);
                assert(r.model()->GenericArray_0 =~= self.model()->GenericArray_0);
                r
            },
            Data::GenericStruct { ty_name, fields } => {
                let mut copies: Vec<(String, Data)> = Vec::new();
                let mut i: usize = 0;
                while i < fields.len()
                    invariant
                        i <= fields@.len(),
                        copies@.len() == i,
                        forall|k: int|
                            0 <= k < i ==> copies@[k].0@ == fields@[k].0@ && copies@[k].1.model()
                                == fields@[k].1.model(),
                    decreases fields@.len() - i,
                {
                    let copy = fields[i].1.clone_owned();
                    copies.push((fields[i].0.clone(), copy));
                    i += 1;
                }
                let r = Data::GenericStruct { ty_name: ty_name.clone(), fields: copies };
                assert(r.model()->GenericStruct_fields =~= self.model()->GenericStruct_fields);
                r
            },
            Data::Bool(v) => Data::Bool(*v),
            Data::UInt8(v) => Data::UInt8(*v),
            Data::UInt16(v) => Data::UInt16(*v),
            Data::UInt32(v) => Data::UInt32(*v),
            Data::UInt64(v) => Data::UInt64(*v),
            Data::SInt8(v) => Data::SInt8(*v),
            Data::SInt16(v) => Data::SInt16(*v),
            Data::SInt32(v) => Data::SInt32(*v),
            Data::SInt64(v) => Data::SInt64(*v),
            Data::Float(v) => Data::Float(*v),
            Data::Double(v) => Data::Double(*v),
            Data::String(bytes) => Data::String(vstd::slice::slice_to_vec(bytes.as_slice())),
            Data::UInt8Array(bytes) => Data::UInt8Array(
                vstd::slice::slice_to_vec(bytes.as_slice()),
            ),
            Data::Pair(first, second) => Data::Pair(
                Box::new(first.clone_owned()),
                Box::new(second.clone_owned()),
            ),
        }
    }

    /// The field `name` of a struct: the last one of that name. Nothing for
    /// a value that is no struct or has no such field.
    #[verifier::loop_isolation(false)]
    pub fn field(&self, name: &str) -> (r: Option<&Data>)
        ensures
            match r {
                Some(data) => self@.field(name@) == Some(data@),
                None => self@.field(name@) is None,
            },
    {
        match self {
            Data::GenericStruct { ty_name, fields } => {
                let ghost views = self.model()->GenericStruct_fields;
                let mut i: usize = fields.len();
                assert(views.subrange(0, i as int) =~= views);
                while i > 0
                    invariant
                        i <= fields@.len(),
                        views.len() == fields@.len(),
                        forall|k: int|
                            0 <= k < fields@.len() ==> #[trigger] views[k] == (
                                fields@[k].0@,
                                fields@[k].1.model(),
                            ),
                        spec_field(views, name@) == spec_field(views.subrange(0, i as int), name@),
                    decreases i,
                {
                    i -= 1;
                    assert(views.subrange(0, i + 1).drop_last() =~= views.subrange(0, i as int));
                    if str_eq(fields[i].0.as_str(), name) {
                        return Some(&fields[i].1);
                    }
                }
                None
            },
            _ => None,
        }
    }
}

/// What an asset says of one class: its id, a hash, and its type tree where
/// the asset carries trees.
#[derive(Debug, PartialEq, Eq)]
pub struct TypeMetadataEntry {
    pub class_id: i32,
    pub hash: Option<Vec<u8>>,
    pub tree: Option<TypeTree>,
}

/// An entry as plain values.
pub struct TypeMetadataEntryView {
    pub class_id: i32,
    pub hash: Option<Seq<u8>>,
    pub tree: Option<TypeTreeView>,
}

impl View for TypeMetadataEntry {
    type V = TypeMetadataEntryView;

    open spec fn view(&self) -> TypeMetadataEntryView {
        TypeMetadataEntryView {
            class_id: self.class_id,
            hash: match self.hash {
                Some(bytes) => Some(bytes@),
                None => None,
            },
            tree: match self.tree {
                Some(tree) => Some(tree.model()),
                None => None,
            },
        }
    }
}

/// The type metadata of an asset: the classes in file order, and for each
/// class id the entry that was read last for it.
#[derive(Debug)]
pub struct TypeMetadata {
    pub generator_version: String,
    pub target_platform: u32,
    pub class_ids: Vec<i32>,
    pub entries: HashMap<i32, TypeMetadataEntry>,
}

/// Type metadata as plain values.
pub struct TypeMetadataView {
    pub generator_version: Seq<char>,
    pub target_platform: u32,
    pub class_ids: Seq<i32>,
    pub entries: Map<i32, TypeMetadataEntryView>,
}

impl View for TypeMetadata {
    type V = TypeMetadataView;

    open spec fn view(&self) -> TypeMetadataView {
        TypeMetadataView {
            generator_version: self.generator_version@,
            target_platform: self.target_platform,
            class_ids: self.class_ids@,
            entries: entry_views(self.entries@),
        }
    }
}

/// The views of the entries of a map.
pub open spec fn entry_views(entries: Map<i32, TypeMetadataEntry>) -> Map<
    i32,
    TypeMetadataEntryView,
> {
    entries.map_values(|entry: TypeMetadataEntry| entry@)
}

/// Putting an entry into the map puts its view into the map of views.
pub proof fn lemma_entry_views_insert(
    entries: Map<i32, TypeMetadataEntry>,
    views: Seq<TypeMetadataEntryView>,
    entry: TypeMetadataEntry,
)
    requires
        entry_views(entries) == entry_map(views),
    ensures
        entry_views(entries.insert(entry.class_id, entry)) == entry_map(views.push(entry@)),
{
    assert(views.push(entry@).drop_last() =~= views);
    assert(entry_views(entries.insert(entry.class_id, entry)) =~= entry_views(entries).insert(
        entry.class_id,
        entry@,
    ));
}

/// The class id under which an entry is kept. Class 114 stands for scripts:
/// it becomes `-2 - script_id` for a script id from 0 on, else -1.
pub open spec fn spec_entry_class(class_id: i32, script_id: i16) -> int {
    if class_id == 114 {
        if script_id >= 0 {
            -2 - script_id
        } else {
            -1
        }
    } else {
        class_id as int
    }
}

/// The class id of an entry of format 13 and later at `pos`: the stored id,
/// which from format 17 on is followed by a skipped byte and a script id
/// that may change it.
pub open spec fn spec_entry_id(s: Seq<u8>, pos: int, e: Endianness, format: u32) -> Parsed<i32> {
    match spec_read_i32(s, pos, e) {
        Err(err) => Err(err),
        Ok((raw_class, p1)) => if format >= 17 {
            match spec_read_i16(s, p1 + 1, e) {
                Err(err) => Err(err),
                Ok((script_id, p2)) => Ok((spec_entry_class(raw_class, script_id) as i32, p2)),
            }
        } else {
            Ok((raw_class, p1))
        },
    }
}

/// The hash of an entry at `pos`: 32 bytes for a negative class id, else 16.
pub open spec fn spec_entry_hash(s: Seq<u8>, pos: int, class_id: i32) -> Parsed<Seq<u8>> {
    spec_take(
        s,
        pos,
        if class_id < 0 {
            32
        } else {
            16
        },
    )
}

/// The tree of an entry at `pos`, where the asset carries trees.
pub open spec fn spec_entry_tree(
    s: Seq<u8>,
    pos: int,
    e: Endianness,
    format: u32,
    has_trees: bool,
    strings: Seq<u8>,
) -> Parsed<Option<TypeTreeView>> {
    if has_trees {
        match spec_tree(s, pos, e, format, strings) {
            Err(err) => Err(err),
            Ok((tree, next)) => Ok((Some(tree), next)),
        }
    } else {
        Ok((None, pos))
    }
}

/// An entry of format 13 and later at `pos`: the class id, a hash, and a
/// type tree where the asset carries trees.
pub open spec fn spec_entry(
    s: Seq<u8>,
    pos: int,
    e: Endianness,
    format: u32,
    has_trees: bool,
    strings: Seq<u8>,
) -> Parsed<TypeMetadataEntryView> {
    match spec_entry_id(s, pos, e, format) {
        Err(err) => Err(err),
        Ok((class_id, p1)) => match spec_entry_hash(s, p1, class_id) {
            Err(err) => Err(err),
            Ok((hash, p2)) => match spec_entry_tree(s, p2, e, format, has_trees, strings) {
                Err(err) => Err(err),
                Ok((tree, next)) => Ok(
                    (TypeMetadataEntryView { class_id, hash: Some(hash), tree }, next),
                ),
            },
        },
    }
}

/// An entry before format 13 at `pos`: the class id and a type tree.
pub open spec fn spec_entry_old(s: Seq<u8>, pos: int, e: Endianness, format: u32, strings: Seq<u8>) -> Parsed<
    TypeMetadataEntryView,
> {
    match spec_read_i32(s, pos, e) {
        Err(err) => Err(err),
        Ok((class_id, p1)) => match spec_tree(s, p1, e, format, strings) {
            Err(err) => Err(err),
            Ok((tree, next)) => Ok(
                (TypeMetadataEntryView { class_id, hash: None, tree: Some(tree) }, next),
            ),
        },
    }
}

/// The reader of one entry for the given format.
pub open spec fn entry_item(e: Endianness, format: u32, has_trees: bool, strings: Seq<u8>) -> spec_fn(
    Seq<u8>,
    int,
) -> Parsed<TypeMetadataEntryView> {
    |s: Seq<u8>, p: int|
        if format >= 13 {
            spec_entry(s, p, e, format, has_trees, strings)
        } else {
            spec_entry_old(s, p, e, format, strings)
        }
}

/// The entries by class id; of two entries with one id the later stands.
pub open spec fn entry_map(entries: Seq<TypeMetadataEntryView>) -> Map<i32, TypeMetadataEntryView>
    decreases entries.len(),
{
    if entries.len() == 0 {
        Map::empty()
    } else {
        entry_map(entries.drop_last()).insert(entries.last().class_id, entries.last())
    }
}

/// The class ids of the entries, in order.
pub open spec fn entry_ids(entries: Seq<TypeMetadataEntryView>) -> Seq<i32> {
    entries.map_values(|entry: TypeMetadataEntryView| entry.class_id)
}

/// The entries of an asset at `pos`. From format 13 on: a byte that says
/// whether trees are present, the number of entries, the entries. Before:
/// the number of entries and the entries, each with its tree.
pub open spec fn spec_entries(s: Seq<u8>, pos: int, e: Endianness, format: u32, strings: Seq<u8>) -> Parsed<
    Seq<TypeMetadataEntryView>,
> {
    if format >= 13 {
        match spec_read_u8(s, pos) {
            Err(err) => Err(err),
            Ok((has_trees, p1)) => match spec_read_u32(s, p1, e) {
                Err(err) => Err(err),
                Ok((count, p2)) => spec_repeat(
                    entry_item(e, format, has_trees != 0, strings),
                    s,
                    p2,
                    count as int,
                ),
            },
        }
    } else {
        match spec_read_u32(s, pos, e) {
            Err(err) => Err(err),
            Ok((count, p1)) => spec_repeat(entry_item(e, format, false, strings), s, p1, count as int),
        }
    }
}

/// The type metadata of an asset at `pos`: the generator version, the target
/// platform and the entries.
pub open spec fn spec_type_metadata(
    s: Seq<u8>,
    pos: int,
    e: Endianness,
    format: u32,
    strings: Seq<u8>,
) -> Parsed<TypeMetadataView> {
    match spec_read_cstring(s, pos) {
        Err(err) => Err(err),
        Ok((generator_version, p1)) => match spec_read_u32(s, p1, e) {
            Err(err) => Err(err),
            Ok((target_platform, p2)) => match spec_entries(s, p2, e, format, strings) {
                Err(err) => Err(err),
                Ok((entries, next)) => Ok(
                    (
                        TypeMetadataView {
                            generator_version,
                            target_platform,
                            class_ids: entry_ids(entries),
                            entries: entry_map(entries),
                        },
                        next,
                    ),
                ),
            },
        },
    }
}

/// The tree under which an object is read: the one that the asset holds under
/// the object's type id, else the one that the default catalog holds under
/// its class id.
pub open spec fn spec_tree_for(
    entries: Map<i32, TypeMetadataEntryView>,
    defaults: Map<i32, TypeMetadataEntryView>,
    type_id: i32,
    class_id: i32,
) -> Option<TypeTreeView> {
    if entries.contains_key(type_id) && entries[type_id].tree is Some {
        entries[type_id].tree
    } else if defaults.contains_key(class_id) {
        defaults[class_id].tree
    } else {
        None
    }
}

/// Reads the class id of an entry of format 13 or later.
fn read_entry_id(input: &[u8], pos: usize, e: Endianness, format: u32) -> (r: Result<
    (i32, usize),
    ParseError,
>)
    ensures
        agrees(r, spec_entry_id(input@, pos as int, e, format)),
{
    let (raw_class, p1) = read_i32(input, pos, e)?;
    if format >= 17 {
        if p1 >= input.len() {
            return Err(ParseError::TruncatedInput);
        }
        let (script_id, p2) = read_i16(input, p1 + 1, e)?;
        let class_id: i32 = if raw_class == 114 {
            if script_id >= 0 {
                -2 - script_id as i32
            } else {
                -1
            }
        } else {
            raw_class
        };
        Ok((class_id, p2))
    } else {
        Ok((raw_class, p1))
    }
}

/// Reads the hash of an entry.
fn read_entry_hash(input: &[u8], pos: usize, class_id: i32) -> (r: Result<(Vec<u8>, usize), ParseError>)
    ensures
        agrees(r, spec_entry_hash(input@, pos as int, class_id)),
{
    let hash_len: usize = if class_id < 0 {
        32
    } else {
        16
    };
    let (hash, next) = take(input, pos, hash_len)?;
    Ok((vstd::slice::slice_to_vec(hash), next))
}

/// Reads the tree of an entry, where the asset carries trees.
fn read_entry_tree(
    input: &[u8],
    pos: usize,
    e: Endianness,
    format: u32,
    has_trees: bool,
    strings: &[u8],
) -> (r: Result<(Option<TypeTree>, usize), ParseError>)
    ensures
        match r {
            Ok((tree, next)) => spec_entry_tree(input@, pos as int, e, format, has_trees, strings@)
                == Ok::<(Option<TypeTreeView>, int), ParseError>(
                (
                    match tree {
                        Some(tree) => Some(tree@),
                        None => None,
                    },
                    next as int,
                ),
            ),
            Err(err) => spec_entry_tree(input@, pos as int, e, format, has_trees, strings@) == Err::<
                (Option<TypeTreeView>, int),
                ParseError,
            >(err),
        },
{
    if has_trees {
        let (tree, next) = TypeTree::parse(input, pos, e, format, strings)?;
        Ok((Some(tree), next))
    } else {
        Ok((None, pos))
    }
}

impl TypeMetadataEntry {
    /// Reads an entry of format 13 or later.
    pub fn parse(
        input: &[u8],
        pos: usize,
        e: Endianness,
        format: u32,
        has_type_trees: bool,
        strings: &[u8],
    ) -> (r: Result<(TypeMetadataEntry, usize), ParseError>)
        ensures
            agrees(r, spec_entry(input@, pos as int, e, format, has_type_trees, strings@)),
    {
        let (class_id, p1) = read_entry_id(input, pos, e, format)?;
        let (hash, p2) = read_entry_hash(input, p1, class_id)?;
        let (tree, next) = read_entry_tree(input, p2, e, format, has_type_trees, strings)?;
        Ok((TypeMetadataEntry { class_id, hash: Some(hash), tree }, next))
    }

    /// Reads an entry of a format before 13.
    pub fn parse_old(input: &[u8], pos: usize, e: Endianness, format: u32, strings: &[u8]) -> (r:
        Result<(TypeMetadataEntry, usize), ParseError>)
        ensures
            agrees(r, spec_entry_old(input@, pos as int, e, format, strings@)),
    {
        let (class_id, p1) = read_i32(input, pos, e)?;
        let (tree, next) = TypeTree::parse(input, p1, e, format, strings)?;
        Ok((TypeMetadataEntry { class_id, hash: None, tree: Some(tree) }, next))
    }
}

impl TypeMetadata {
    /// Type metadata without any class.
    pub fn empty() -> (r: TypeMetadata)
        ensures
            r@.class_ids == Seq::<i32>::empty(),
            r@.entries == Map::<i32, TypeMetadataEntryView>::empty(),
            r@.generator_version == Seq::<char>::empty(),
            r@.target_platform == 0,
    {
        let r = TypeMetadata {
            generator_version: String::new(),
            target_platform: 0,
            class_ids: Vec::new(),
            entries: HashMap::new(),
        };
        assert(entry_views(r.entries@) =~= Map::<i32, TypeMetadataEntryView>::empty());
        r
    }

    /// Reads `count` entries in a row.
    fn parse_entry_list(
        input: &[u8],
        start: usize,
        e: Endianness,
        format: u32,
        has_trees: bool,
        strings: &[u8],
        count: u32,
    ) -> (r: Result<((Vec<i32>, HashMap<i32, TypeMetadataEntry>), usize), ParseError>)
        ensures
            match r {
                Ok(((class_ids, entries), next)) => exists|views: Seq<TypeMetadataEntryView>|
                    {
                        &&& #[trigger] entry_map(views) == entry_views(entries@)
                        &&& spec_repeat(
                            entry_item(e, format, has_trees, strings@),
                            input@,
                            start as int,
                            count as int,
                        ) == Ok::<(Seq<TypeMetadataEntryView>, int), ParseError>(
                            (views, next as int),
                        )
                        &&& class_ids@ == entry_ids(views)
                    },
                Err(err) => spec_repeat(
                    entry_item(e, format, has_trees, strings@),
                    input@,
                    start as int,
                    count as int,
                ) == Err::<(Seq<TypeMetadataEntryView>, int), ParseError>(err),
            },
    {
        broadcast use vstd::std_specs::hash::group_hash_axioms;

        let ghost item = entry_item(e, format, has_trees, strings@);
        let ghost mut views: Seq<TypeMetadataEntryView> = Seq::empty();
        let mut class_ids: Vec<i32> = Vec::new();
        let mut entries: HashMap<i32, TypeMetadataEntry> = HashMap::new();
        assert(entry_views(entries@) =~= entry_map(views));
        assert(class_ids@ =~= entry_ids(views));
        let mut cur = start;
        let mut i: u32 = 0;
        while i < count
            invariant
                i <= count,
                item == entry_item(e, format, has_trees, strings@),
                spec_repeat(item, input@, start as int, i as int) == Ok::<
                    (Seq<TypeMetadataEntryView>, int),
                    ParseError,
                >((views, cur as int)),
                class_ids@ == entry_ids(views),
                entry_views(entries@) == entry_map(views),
            decreases count - i,
        {
            let parsed = if format >= 13 {
                TypeMetadataEntry::parse(input, cur, e, format, has_trees, strings)
            } else {
                TypeMetadataEntry::parse_old(input, cur, e, format, strings)
            };
            match parsed {
                Ok((entry, next)) => {
                    proof {
                        lemma_entry_views_insert(entries@, views, entry);
                        assert(class_ids@.push(entry.class_id) =~= entry_ids(views.push(entry@)));
                        views = views.push(entry@);
                    }
                    class_ids.push(entry.class_id);
                    entries.insert(entry.class_id, entry);
                    cur = next;
                },
                Err(err) => {
                    proof {
                        lemma_repeat_fails(item, input@, start as int, i + 1, count as int);
                    }
                    return Err(err);
                },
            }
            i += 1;
        }
        Ok(((class_ids, entries), cur))
    }

    /// Reads the entries of an asset.
    fn parse_entries(input: &[u8], pos: usize, e: Endianness, format: u32, strings: &[u8]) -> (r:
        Result<((Vec<i32>, HashMap<i32, TypeMetadataEntry>), usize), ParseError>)
        ensures
            match r {
                Ok(((class_ids, entries), next)) => exists|views: Seq<TypeMetadataEntryView>|
                    {
                        &&& #[trigger] entry_map(views) == entry_views(entries@)
                        &&& spec_entries(input@, pos as int, e, format, strings@) == Ok::<
                            (Seq<TypeMetadataEntryView>, int),
                            ParseError,
                        >((views, next as int))
                        &&& class_ids@ == entry_ids(views)
                    },
                Err(err) => spec_entries(input@, pos as int, e, format, strings@) == Err::<
                    (Seq<TypeMetadataEntryView>, int),
                    ParseError,
                >(err),
            },
    {
        if format >= 13 {
            let (flag, p1) = read_u8(input, pos)?;
            let (count, p2) = read_u32(input, p1, e)?;
            TypeMetadata::parse_entry_list(input, p2, e, format, flag != 0, strings, count)
        } else {
            let (count, p1) = read_u32(input, pos, e)?;
            TypeMetadata::parse_entry_list(input, p1, e, format, false, strings, count)
        }
    }

    /// Reads the type metadata of an asset of the given format; `strings` is
    /// the shared string table of the flat tree encoding.
    pub fn parse(input: &[u8], pos: usize, e: Endianness, format: u32, strings: &[u8]) -> (r: Result<
        (TypeMetadata, usize),
        ParseError,
    >)
        ensures
            agrees(r, spec_type_metadata(input@, pos as int, e, format, strings@)),
    {
        let (generator_version, p1) = read_cstring(input, pos)?;
        let (target_platform, p2) = read_u32(input, p1, e)?;
        let ((class_ids, entries), next) = TypeMetadata::parse_entries(input, p2, e, format, strings)?;
        Ok((TypeMetadata { generator_version, target_platform, class_ids, entries }, next))
    }

    /// The class id at place `idx` of the class table, where there is one.
    pub fn class_id_from_idx(&self, idx: usize) -> (r: Option<i32>)
        ensures
            r == (if idx < self@.class_ids.len() {
                Some(self@.class_ids[idx as int])
            } else {
                None
            }),
    {
        if idx < self.class_ids.len() {
            Some(self.class_ids[idx])
        } else {
            None
        }
    }

    /// The tree for an object of the given type and class: that of this
    /// metadata under the type id, else that of `defaults` under the class id.
    pub fn type_tree_from_id<'a>(&'a self, type_id: i32, class_id: i32, defaults: &'a TypeMetadata) -> (r:
        Option<&'a TypeTree>)
        ensures
            match r {
                Some(tree) => spec_tree_for(self@.entries, defaults@.entries, type_id, class_id)
                    == Some(tree@),
                None => spec_tree_for(self@.entries, defaults@.entries, type_id, class_id) is None,
            },
    {
        broadcast use vstd::std_specs::hash::group_hash_axioms;

        match self.entries.get(&type_id) {
            Some(entry) => match &entry.tree {
                Some(tree) => {
                    return Some(tree);
                },
                None => {},
            },
            None => {},
        }
        match defaults.entries.get(&class_id) {
            Some(entry) => match &entry.tree {
                Some(tree) => Some(tree),
                None => None,
            },
            None => None,
        }
    }
}

/// What the reader knows before it sees a file: the shared string table of
/// the flat tree encoding, and the trees of well-known classes.
#[derive(Debug)]
pub struct Catalog {
    pub strings: Vec<u8>,
    pub defaults: TypeMetadata,
}

/// The format in which the default trees are stored.
pub const CATALOG_FORMAT: u32 = 15;

impl Catalog {
    /// A catalog without strings and without trees.
    pub fn empty() -> (r: Catalog)
        ensures
            r.strings@ == Seq::<u8>::empty(),
            r.defaults@.entries == Map::<i32, TypeMetadataEntryView>::empty(),
            r.defaults@.class_ids == Seq::<i32>::empty(),
    {
        Catalog { strings: Vec::new(), defaults: TypeMetadata::empty() }
    }

    /// A catalog made of the shared string table and of the stored default
    /// trees, which are type metadata in little-endian format 15.
    pub fn new(strings: Vec<u8>, structs: &[u8]) -> (r: Result<Catalog, ParseError>)
        ensures
            match r {
                Ok(catalog) => {
                    &&& catalog.strings@ == strings@
                    &&& spec_type_metadata(structs@, 0, Endianness::Little, CATALOG_FORMAT, strings@)
                        matches Ok((defaults, _))
                    &&& defaults == catalog.defaults@
                },
                Err(err) => spec_type_metadata(
                    structs@,
                    0,
                    Endianness::Little,
                    CATALOG_FORMAT,
                    strings@,
                ) == Err::<(TypeMetadataView, int), ParseError>(err),
            },
    {
        let (defaults, _) = TypeMetadata::parse(
            structs,
            0,
            Endianness::Little,
            CATALOG_FORMAT,
            strings.as_slice(),
        )?;
        Ok(Catalog { strings, defaults })
    }
}

} // verus!
