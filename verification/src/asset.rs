//! Assets: the named sub-files of a container that hold objects.
//!
//! An asset starts with a fixed big-endian header. From format 9 on a word
//! says in which byte order the rest is written. Then come the type metadata,
//! the object table, and, depending on the format, two more tables.

use vstd::prelude::*;
use crate::bytes::Endianness;
use crate::bytes::Parsed;
use crate::bytes::agrees;
use crate::bytes::align;
use crate::bytes::lemma_repeat_fails;
use crate::bytes::read_cstring;
use crate::bytes::read_i16;
use crate::bytes::read_i32;
use crate::bytes::read_u32;
use crate::bytes::read_u64;
use crate::bytes::read_u8;
use crate::bytes::spec_align;
use crate::bytes::spec_read_cstring;
use crate::bytes::spec_read_i16;
use crate::bytes::spec_read_i32;
use crate::bytes::spec_read_u32;
use crate::bytes::spec_read_u64;
use crate::bytes::spec_read_u8;
use crate::bytes::spec_repeat;
use crate::bytes::spec_take;
use crate::bytes::take;
use crate::error::ParseError;
use crate::type_tree::Catalog;
use crate::type_tree::Data;
use crate::type_tree::DataView;
use crate::type_tree::TypeMetadata;
use crate::type_tree::TypeMetadataEntryView;
use crate::type_tree::TypeMetadataView;
use crate::type_tree::spec_read;
use crate::type_tree::spec_tree_for;
use crate::type_tree::spec_type_metadata;

verus! {

/// One object of an asset, decoded through its type tree.
#[derive(Debug, PartialEq, Eq)]
pub struct Object {
    pub path_id: u64,
    pub type_id: i32,
    pub class_id: i32,
    pub is_destroyed: bool,
    pub data: Data,
}

/// An object as plain values.
pub struct ObjectView {
    pub path_id: u64,
    pub type_id: i32,
    pub class_id: i32,
    pub is_destroyed: bool,
    pub data: DataView,
}

impl View for Object {
    type V = ObjectView;

    open spec fn view(&self) -> ObjectView {
        ObjectView {
            path_id: self.path_id,
            type_id: self.type_id,
            class_id: self.class_id,
            is_destroyed: self.is_destroyed,
            data: self.data@,
        }
    }
}

/// A reference from an asset to another file.
#[derive(Debug, PartialEq, Eq)]
pub struct AssetRef {
    pub asset_path: String,
    pub guid: Vec<u8>,
    pub ty: u32,
    pub file_path: String,
}

/// A reference as plain values.
pub struct AssetRefView {
    pub asset_path: Seq<char>,
    pub guid: Seq<u8>,
    pub ty: u32,
    pub file_path: Seq<char>,
}

impl View for AssetRef {
    type V = AssetRefView;

    open spec fn view(&self) -> AssetRefView {
        AssetRefView {
            asset_path: self.asset_path@,
            guid: self.guid@,
            ty: self.ty,
            file_path: self.file_path@,
        }
    }
}

/// An asset: its header, its type metadata, its objects and its tables.
#[derive(Debug)]
pub struct Asset {
    pub name: String,
    pub metadata_size: u32,
    pub file_size: u32,
    pub format: u32,
    pub data_offset: u32,
    pub tree: TypeMetadata,
    pub objects: Vec<Object>,
    pub adds: Vec<(u64, i32)>,
    pub refs: Vec<AssetRef>,
}

/// An asset as plain values.
pub struct AssetView {
    pub name: Seq<char>,
    pub metadata_size: u32,
    pub file_size: u32,
    pub format: u32,
    pub data_offset: u32,
    pub tree: TypeMetadataView,
    pub objects: Seq<ObjectView>,
    pub adds: Seq<(u64, i32)>,
    pub refs: Seq<AssetRefView>,
}

/// The views of a list of objects.
pub open spec fn object_views(objects: Seq<Object>) -> Seq<ObjectView> {
    objects.map_values(|o: Object| o@)
}

/// The views of a list of assets.
pub open spec fn asset_views(assets: Seq<Asset>) -> Seq<AssetView> {
    assets.map_values(|a: Asset| a@)
}

/// The views of a list of references.
pub open spec fn ref_views(refs: Seq<AssetRef>) -> Seq<AssetRefView> {
    refs.map_values(|r: AssetRef| r@)
}

impl View for Asset {
    type V = AssetView;

    open spec fn view(&self) -> AssetView {
        AssetView {
            name: self.name@,
            metadata_size: self.metadata_size,
            file_size: self.file_size,
            format: self.format,
            data_offset: self.data_offset,
            tree: self.tree@,
            objects: object_views(self.objects@),
            adds: self.adds@,
            refs: ref_views(self.refs@),
        }
    }
}

/// What decides how the records of one asset are read.
pub struct AssetContext {
    pub e: Endianness,
    pub format: u32,
    pub long_ids: bool,
    pub data_offset: u32,
    pub offset: int,
    pub class_ids: Seq<i32>,
    pub entries: Map<i32, TypeMetadataEntryView>,
    pub defaults: Map<i32, TypeMetadataEntryView>,
}

/// The position at which a record starts: the next aligned one from format
/// 14 on.
pub open spec fn spec_record_start(s: Seq<u8>, pos: int, format: u32, offset: int) -> Result<
    int,
    ParseError,
> {
    if format >= 14 {
        spec_align(offset, s.len() as int, pos)
    } else {
        Ok(pos)
    }
}

/// An id of 64 bits where `wide`, else of 32 bits.
pub open spec fn spec_read_id(s: Seq<u8>, pos: int, e: Endianness, wide: bool) -> Parsed<u64> {
    if wide {
        spec_read_u64(s, pos, e)
    } else {
        match spec_read_u32(s, pos, e) {
            Ok((id, next)) => Ok((id as u64, next)),
            Err(err) => Err(err),
        }
    }
}

/// The type id and the class id of an object record. Before format 17 both
/// are stored; from then on one index into the class table gives both.
pub open spec fn spec_object_class(s: Seq<u8>, pos: int, c: AssetContext) -> Parsed<(i32, i32)> {
    if c.format < 17 {
        match spec_read_i32(s, pos, c.e) {
            Err(err) => Err(err),
            Ok((type_id, p)) => match spec_read_i16(s, p, c.e) {
                Err(err) => Err(err),
                Ok((class_id, next)) => Ok(((type_id, class_id as i32), next)),
            },
        }
    } else {
        match spec_read_u32(s, pos, c.e) {
            Err(err) => Err(err),
            Ok((idx, next)) => if idx < c.class_ids.len() {
                Ok(((c.class_ids[idx as int], c.class_ids[idx as int]), next))
            } else {
                Err(ParseError::BadTypeTree)
            },
        }
    }
}

/// The value of an object whose bytes lie at `start` to `end` of the asset,
/// read through the tree for its type and class at logical offset 0.
pub open spec fn spec_object_data(
    s: Seq<u8>,
    start: int,
    end: int,
    type_id: i32,
    class_id: i32,
    c: AssetContext,
) -> Result<DataView, ParseError> {
    match spec_tree_for(c.entries, c.defaults, type_id, class_id) {
        None => Err(ParseError::MissingTypeTree { class_id }),
        Some(tree) => if end > s.len() {
            Err(ParseError::TruncatedInput)
        } else {
            match spec_read(tree, s.subrange(start, end), 0, c.e, 0) {
                Ok((data, _)) => Ok(data),
                Err(err) => Err(err),
            }
        },
    }
}

/// What follows the value in an object record: a byte that says whether the
/// object is destroyed up to format 10, two skipped bytes for formats 11 to
/// 16, and one more for formats 15 and 16.
pub open spec fn spec_object_tail(s: Seq<u8>, pos: int, format: u32) -> Parsed<bool> {
    if format <= 10 {
        match spec_read_u8(s, pos) {
            Ok((flag, next)) => Ok((flag != 0, next)),
            Err(err) => Err(err),
        }
    } else if format <= 14 {
        match spec_take(s, pos, 2) {
            Ok((_, next)) => Ok((false, next)),
            Err(err) => Err(err),
        }
    } else if format <= 16 {
        match spec_take(s, pos, 3) {
            Ok((_, next)) => Ok((false, next)),
            Err(err) => Err(err),
        }
    } else {
        Ok((false, pos))
    }
}

/// An object record at `pos`: the path id, the place of the object's bytes
/// relative to the data offset of the asset and their number, type and
/// class, and the tail.
#[verifier::opaque]
pub open spec fn spec_object(s: Seq<u8>, pos: int, c: AssetContext) -> Parsed<ObjectView> {
    match spec_record_start(s, pos, c.format, c.offset) {
        Err(err) => Err(err),
        Ok(p0) => match spec_read_id(s, p0, c.e, c.format >= 14 || c.long_ids) {
            Err(err) => Err(err),
            Ok((path_id, p1)) => match spec_read_u32(s, p1, c.e) {
                Err(err) => Err(err),
                Ok((object_offset, p2)) => match spec_read_u32(s, p2, c.e) {
                    Err(err) => Err(err),
                    Ok((size, p3)) => match spec_object_class(s, p3, c) {
                        Err(err) => Err(err),
                        Ok(((type_id, class_id), p4)) => match spec_object_data(
                            s,
                            c.data_offset + object_offset,
                            c.data_offset + object_offset + size,
                            type_id,
                            class_id,
                            c,
                        ) {
                            Err(err) => Err(err),
                            Ok(data) => match spec_object_tail(s, p4, c.format) {
                                Err(err) => Err(err),
                                Ok((is_destroyed, next)) => Ok(
                                    (
                                        ObjectView {
                                            path_id,
                                            type_id,
                                            class_id,
                                            is_destroyed,
                                            data,
                                        },
                                        next,
                                    ),
                                ),
                            },
                        },
                    },
                },
            },
        },
    }
}

/// A record of the second table at `pos`: an id and a value.
#[verifier::opaque]
pub open spec fn spec_add(s: Seq<u8>, pos: int, e: Endianness, format: u32, offset: int) -> Parsed<
    (u64, i32),
> {
    match spec_record_start(s, pos, format, offset) {
        Err(err) => Err(err),
        Ok(p0) => match spec_read_id(s, p0, e, format >= 14) {
            Err(err) => Err(err),
            Ok((id, p1)) => match spec_read_i32(s, p1, e) {
                Err(err) => Err(err),
                Ok((value, next)) => Ok(((id, value), next)),
            },
        },
    }
}

/// A reference record at `pos`: a path, sixteen bytes of GUID, a type and a
/// second path.
pub open spec fn spec_asset_ref(s: Seq<u8>, pos: int, e: Endianness) -> Parsed<AssetRefView> {
    match spec_read_cstring(s, pos) {
        Err(err) => Err(err),
        Ok((asset_path, p1)) => match spec_take(s, p1, 16) {
            Err(err) => Err(err),
            Ok((guid, p2)) => match spec_read_u32(s, p2, e) {
                Err(err) => Err(err),
                Ok((ty, p3)) => match spec_read_cstring(s, p3) {
                    Err(err) => Err(err),
                    Ok((file_path, next)) => Ok(
                        (AssetRefView { asset_path, guid, ty, file_path }, next),
                    ),
                },
            },
        },
    }
}

/// The reader of one object record.
pub open spec fn object_item(c: AssetContext) -> spec_fn(Seq<u8>, int) -> Parsed<ObjectView> {
    |s: Seq<u8>, p: int| spec_object(s, p, c)
}

/// The reader of one record of the second table.
pub open spec fn add_item(e: Endianness, format: u32, offset: int) -> spec_fn(Seq<u8>, int) -> Parsed<
    (u64, i32),
> {
    |s: Seq<u8>, p: int| spec_add(s, p, e, format, offset)
}

/// The reader of one reference record.
pub open spec fn ref_item(e: Endianness) -> spec_fn(Seq<u8>, int) -> Parsed<AssetRefView> {
    |s: Seq<u8>, p: int| spec_asset_ref(s, p, e)
}

/// A table at `pos`: the number of records, then the records.
pub open spec fn spec_table<T>(
    item: spec_fn(Seq<u8>, int) -> Parsed<T>,
    s: Seq<u8>,
    pos: int,
    e: Endianness,
) -> Parsed<Seq<T>> {
    match spec_read_u32(s, pos, e) {
        Err(err) => Err(err),
        Ok((count, p)) => spec_repeat(item, s, p, count as int),
    }
}

/// The fixed header of an asset at `pos`: metadata size, file size, format
/// and data offset, big-endian, and from format 9 on the byte order of the
/// rest, where 0 stands for little-endian.
pub open spec fn spec_asset_header(s: Seq<u8>, pos: int) -> Parsed<(u32, u32, u32, u32, Endianness)> {
    match spec_read_u32(s, pos, Endianness::Big) {
        Err(err) => Err(err),
        Ok((metadata_size, p1)) => match spec_read_u32(s, p1, Endianness::Big) {
            Err(err) => Err(err),
            Ok((file_size, p2)) => match spec_read_u32(s, p2, Endianness::Big) {
                Err(err) => Err(err),
                Ok((format, p3)) => match spec_read_u32(s, p3, Endianness::Big) {
                    Err(err) => Err(err),
                    Ok((data_offset, p4)) => if format >= 9 {
                        match spec_read_u32(s, p4, Endianness::Big) {
                            Err(err) => Err(err),
                            Ok((order, p5)) => Ok(
                                (
                                    (
                                        metadata_size,
                                        file_size,
                                        format,
                                        data_offset,
                                        if order == 0 {
                                            Endianness::Little
                                        } else {
                                            Endianness::Big
                                        },
                                    ),
                                    p5,
                                ),
                            ),
                        }
                    } else {
                        Ok(((metadata_size, file_size, format, data_offset, Endianness::Big), p4))
                    },
                },
            },
        },
    }
}

/// Whether object ids are 64 bits wide: from format 14 on always, and for
/// formats 7 to 13 where a word at `pos` is not zero.
pub open spec fn spec_long_ids(s: Seq<u8>, pos: int, e: Endianness, format: u32) -> Parsed<bool> {
    if 7 <= format <= 13 {
        match spec_read_u32(s, pos, e) {
            Ok((flag, next)) => Ok((flag != 0, next)),
            Err(err) => Err(err),
        }
    } else {
        Ok((false, pos))
    }
}

/// The second table, from format 11 on.
pub open spec fn spec_adds(s: Seq<u8>, pos: int, e: Endianness, format: u32, offset: int) -> Parsed<
    Seq<(u64, i32)>,
> {
    if format >= 11 {
        spec_table(add_item(e, format, offset), s, pos, e)
    } else {
        Ok((Seq::empty(), pos))
    }
}

/// The reference table, from format 16 on.
pub open spec fn spec_refs(s: Seq<u8>, pos: int, e: Endianness, format: u32) -> Parsed<
    Seq<AssetRefView>,
> {
    if format >= 16 {
        spec_table(ref_item(e), s, pos, e)
    } else {
        Ok((Seq::empty(), pos))
    }
}

/// The asset called `name` whose bytes are `s` and whose first byte has the
/// logical offset `offset`: header, type metadata, objects, the two later
/// tables, and a trailing NUL-terminated string.
#[verifier::opaque]
pub open spec fn spec_asset(
    name: Seq<char>,
    s: Seq<u8>,
    offset: int,
    strings: Seq<u8>,
    defaults: Map<i32, TypeMetadataEntryView>,
) -> Parsed<AssetView> {
    match spec_asset_header(s, 0) {
        Err(err) => Err(err),
        Ok(((metadata_size, file_size, format, data_offset, e), p1)) => match spec_type_metadata(
            s,
            p1,
            e,
            format,
            strings,
        ) {
            Err(err) => Err(err),
            Ok((tree, p2)) => match spec_long_ids(s, p2, e, format) {
                Err(err) => Err(err),
                Ok((long_ids, p3)) => match spec_table(
                    object_item(
                        AssetContext {
                            e,
                            format,
                            long_ids,
                            data_offset,
                            offset,
                            class_ids: tree.class_ids,
                            entries: tree.entries,
                            defaults,
                        },
                    ),
                    s,
                    p3,
                    e,
                ) {
                    Err(err) => Err(err),
                    Ok((objects, p4)) => match spec_adds(s, p4, e, format, offset) {
                        Err(err) => Err(err),
                        Ok((adds, p5)) => match spec_refs(s, p5, e, format) {
                            Err(err) => Err(err),
                            Ok((refs, p6)) => match spec_read_cstring(s, p6) {
                                Err(err) => Err(err),
                                Ok((_, next)) => Ok(
                                    (
                                        AssetView {
                                            name,
                                            metadata_size,
                                            file_size,
                                            format,
                                            data_offset,
                                            tree,
                                            objects,
                                            adds,
                                            refs,
                                        },
                                        next,
                                    ),
                                ),
                            },
                        },
                    },
                },
            },
        },
    }
}

/// What decides how the records of one asset are read, with the type
/// metadata of the asset and the default trees at hand.
pub struct Context<'a> {
    pub e: Endianness,
    pub format: u32,
    pub long_ids: bool,
    pub data_offset: u32,
    pub offset: u64,
    pub tree: &'a TypeMetadata,
    pub defaults: &'a TypeMetadata,
}

impl<'a> View for Context<'a> {
    type V = AssetContext;

    open spec fn view(&self) -> AssetContext {
        AssetContext {
            e: self.e,
            format: self.format,
            long_ids: self.long_ids,
            data_offset: self.data_offset,
            offset: self.offset as int,
            class_ids: self.tree@.class_ids,
            entries: self.tree@.entries,
            defaults: self.defaults@.entries,
        }
    }
}

/// Finds the position at which a record starts.
fn record_start(input: &[u8], pos: usize, format: u32, offset: u64) -> (r: Result<usize, ParseError>)
    ensures
        match r {
            Ok(next) => spec_record_start(input@, pos as int, format, offset as int) == Ok::<
                int,
                ParseError,
            >(next as int),
            Err(err) => spec_record_start(input@, pos as int, format, offset as int) == Err::<
                int,
                ParseError,
            >(err),
        },
{
    if format >= 14 {
        align(offset, input, pos)
    } else {
        Ok(pos)
    }
}

/// Reads an id of 64 bits where `wide`, else of 32 bits.
fn read_id(input: &[u8], pos: usize, e: Endianness, wide: bool) -> (r: Result<(u64, usize), ParseError>)
    ensures
        agrees(r, spec_read_id(input@, pos as int, e, wide)),
{
    if wide {
        read_u64(input, pos, e)
    } else {
        let (id, next) = read_u32(input, pos, e)?;
        Ok((id as u64, next))
    }
}

/// Reads the type id and the class id of an object record.
fn read_object_class(input: &[u8], pos: usize, c: &Context) -> (r: Result<
    ((i32, i32), usize),
    ParseError,
>)
    ensures
        match r {
            Ok((ids, next)) => spec_object_class(input@, pos as int, c@) == Ok::<
                ((i32, i32), int),
                ParseError,
            >((ids, next as int)),
            Err(err) => spec_object_class(input@, pos as int, c@) == Err::<
                ((i32, i32), int),
                ParseError,
            >(err),
        },
{
    if c.format < 17 {
        let (type_id, p) = read_i32(input, pos, c.e)?;
        let (class_id, next) = read_i16(input, p, c.e)?;
        Ok(((type_id, class_id as i32), next))
    } else {
        let (idx, next) = read_u32(input, pos, c.e)?;
        if (idx as u64) > (usize::MAX as u64) {
            return Err(ParseError::BadTypeTree);
        }
        match c.tree.class_id_from_idx(idx as usize) {
            Some(class_id) => Ok(((class_id, class_id), next)),
            None => Err(ParseError::BadTypeTree),
        }
    }
}

/// Reads the value of an object whose bytes lie at `start` to `end`.
fn read_object_data(
    input: &[u8],
    start: u64,
    end: u64,
    type_id: i32,
    class_id: i32,
    c: &Context,
) -> (r: Result<Data, ParseError>)
    requires
        start <= end,
    ensures
        match r {
            Ok(data) => spec_object_data(input@, start as int, end as int, type_id, class_id, c@)
                == Ok::<DataView, ParseError>(data@),
            Err(err) => spec_object_data(input@, start as int, end as int, type_id, class_id, c@)
                == Err::<DataView, ParseError>(err),
        },
{
    let tree = match c.tree.type_tree_from_id(type_id, class_id, c.defaults) {
        Some(tree) => tree,
        None => {
            return Err(ParseError::MissingTypeTree { class_id });
        },
    };
    if end > input.len() as u64 {
        return Err(ParseError::TruncatedInput);
    }
    let payload = vstd::slice::slice_subrange(input, start as usize, end as usize);
    let (data, _) = tree.read(payload, c.e, 0)?;
    Ok(data)
}

/// Reads what follows the value in an object record.
fn read_object_tail(input: &[u8], pos: usize, format: u32) -> (r: Result<(bool, usize), ParseError>)
    ensures
        agrees(r, spec_object_tail(input@, pos as int, format)),
{
    if format <= 10 {
        let (flag, next) = read_u8(input, pos)?;
        Ok((flag != 0, next))
    } else if format <= 14 {
        let (_, next) = take(input, pos, 2)?;
        Ok((false, next))
    } else if format <= 16 {
        let (_, next) = take(input, pos, 3)?;
        Ok((false, next))
    } else {
        Ok((false, pos))
    }
}

impl Object {
    /// Reads one object record and the value it points to.
    pub fn parse(input: &[u8], pos: usize, c: &Context) -> (r: Result<(Object, usize), ParseError>)
        ensures
            agrees(r, spec_object(input@, pos as int, c@)),
    {
        reveal(spec_object);
        let p0 = record_start(input, pos, c.format, c.offset)?;
        let (path_id, p1) = read_id(input, p0, c.e, c.format >= 14 || c.long_ids)?;
        let (object_offset, p2) = read_u32(input, p1, c.e)?;
        let (size, p3) = read_u32(input, p2, c.e)?;
        let ((type_id, class_id), p4) = read_object_class(input, p3, c)?;
        let start = c.data_offset as u64 + object_offset as u64;
        let data = read_object_data(input, start, start + size as u64, type_id, class_id, c)?;
        let (is_destroyed, next) = read_object_tail(input, p4, c.format)?;
        Ok((Object { path_id, type_id, class_id, is_destroyed, data }, next))
    }
}

impl AssetRef {
    /// Reads one reference record.
    pub fn parse(input: &[u8], pos: usize, e: Endianness) -> (r: Result<(AssetRef, usize), ParseError>)
        ensures
            agrees(r, spec_asset_ref(input@, pos as int, e)),
    {
        let (asset_path, p1) = read_cstring(input, pos)?;
        let (guid, p2) = take(input, p1, 16)?;
        let (ty, p3) = read_u32(input, p2, e)?;
        let (file_path, next) = read_cstring(input, p3)?;
        Ok((AssetRef { asset_path, guid: vstd::slice::slice_to_vec(guid), ty, file_path }, next))
    }
}

/// Reads one record of the second table.
fn read_add(input: &[u8], pos: usize, e: Endianness, format: u32, offset: u64) -> (r: Result<
    ((u64, i32), usize),
    ParseError,
>)
    ensures
        match r {
            Ok((add, next)) => spec_add(input@, pos as int, e, format, offset as int) == Ok::<
                ((u64, i32), int),
                ParseError,
            >((add, next as int)),
            Err(err) => spec_add(input@, pos as int, e, format, offset as int) == Err::<
                ((u64, i32), int),
                ParseError,
            >(err),
        },
{
    reveal(spec_add);
    let p0 = record_start(input, pos, format, offset)?;
    let (id, p1) = read_id(input, p0, e, format >= 14)?;
    let (value, next) = read_i32(input, p1, e)?;
    Ok(((id, value), next))
}

/// Reads `count` object records in a row.
fn read_object_list(input: &[u8], start: usize, c: &Context, count: u32) -> (r: Result<
    (Vec<Object>, usize),
    ParseError,
>)
    ensures
        match r {
            Ok((objects, next)) => spec_repeat(object_item(c@), input@, start as int, count as int)
                == Ok::<(Seq<ObjectView>, int), ParseError>(
                (object_views(objects@), next as int),
            ),
            Err(err) => spec_repeat(object_item(c@), input@, start as int, count as int) == Err::<
                (Seq<ObjectView>, int),
                ParseError,
            >(err),
        },
{
    let ghost item = object_item(c@);
    let mut objects: Vec<Object> = Vec::new();
    assert(object_views(objects@) =~= Seq::<ObjectView>::empty());
    let mut cur = start;
    let mut i: u32 = 0;
    while i < count
        invariant
            i <= count,
            item == object_item(c@),
            spec_repeat(item, input@, start as int, i as int) == Ok::<
                (Seq<ObjectView>, int),
                ParseError,
            >((object_views(objects@), cur as int)),
        decreases count - i,
    {
        match Object::parse(input, cur, c) {
            Ok((object, next)) => {
                proof {
                    assert(object_views(objects@.push(object)) =~= object_views(objects@).push(
                        object@,
                    ));
                }
                objects.push(object);
                cur = next;
            },
            Err(err) => {
                proof {
                    lemma_repeat_fails(item, input@, start as int, i + 1, count as int);
                }
                return Err(err);
            },
        }
        i += 1;
    }
    Ok((objects, cur))
}

/// Reads the object table.
fn read_objects(input: &[u8], pos: usize, c: &Context) -> (r: Result<(Vec<Object>, usize), ParseError>)
    ensures
        match r {
            Ok((objects, next)) => spec_table(object_item(c@), input@, pos as int, c@.e) == Ok::<
                (Seq<ObjectView>, int),
                ParseError,
            >((object_views(objects@), next as int)),
            Err(err) => spec_table(object_item(c@), input@, pos as int, c@.e) == Err::<
                (Seq<ObjectView>, int),
                ParseError,
            >(err),
        },
{
    let (count, start) = read_u32(input, pos, c.e)?;
    read_object_list(input, start, c, count)
}

/// Reads `count` records of the second table in a row.
fn read_add_list(
    input: &[u8],
    start: usize,
    e: Endianness,
    format: u32,
    offset: u64,
    count: u32,
) -> (r: Result<(Vec<(u64, i32)>, usize), ParseError>)
    ensures
        match r {
            Ok((adds, next)) => spec_repeat(
                add_item(e, format, offset as int),
                input@,
                start as int,
                count as int,
            ) == Ok::<(Seq<(u64, i32)>, int), ParseError>((adds@, next as int)),
            Err(err) => spec_repeat(
                add_item(e, format, offset as int),
                input@,
                start as int,
                count as int,
            ) == Err::<(Seq<(u64, i32)>, int), ParseError>(err),
        },
{
    let ghost item = add_item(e, format, offset as int);
    let mut adds: Vec<(u64, i32)> = Vec::new();
    let mut cur = start;
    let mut i: u32 = 0;
    while i < count
        invariant
            i <= count,
            item == add_item(e, format, offset as int),
            spec_repeat(item, input@, start as int, i as int) == Ok::<
                (Seq<(u64, i32)>, int),
                ParseError,
            >((adds@, cur as int)),
        decreases count - i,
    {
        match read_add(input, cur, e, format, offset) {
            Ok((add, next)) => {
                adds.push(add);
                cur = next;
            },
            Err(err) => {
                proof {
                    lemma_repeat_fails(item, input@, start as int, i + 1, count as int);
                }
                return Err(err);
            },
        }
        i += 1;
    }
    Ok((adds, cur))
}

/// Reads the second table.
fn read_adds(input: &[u8], pos: usize, e: Endianness, format: u32, offset: u64) -> (r: Result<
    (Vec<(u64, i32)>, usize),
    ParseError,
>)
    ensures
        match r {
            Ok((adds, next)) => spec_adds(input@, pos as int, e, format, offset as int) == Ok::<
                (Seq<(u64, i32)>, int),
                ParseError,
            >((adds@, next as int)),
            Err(err) => spec_adds(input@, pos as int, e, format, offset as int) == Err::<
                (Seq<(u64, i32)>, int),
                ParseError,
            >(err),
        },
{
    if format < 11 {
        return Ok((Vec::new(), pos));
    }
    let (count, start) = read_u32(input, pos, e)?;
    read_add_list(input, start, e, format, offset, count)
}

/// Reads `count` reference records in a row.
fn read_ref_list(input: &[u8], start: usize, e: Endianness, count: u32) -> (r: Result<
    (Vec<AssetRef>, usize),
    ParseError,
>)
    ensures
        match r {
            Ok((refs, next)) => spec_repeat(ref_item(e), input@, start as int, count as int) == Ok::<
                (Seq<AssetRefView>, int),
                ParseError,
            >((ref_views(refs@), next as int)),
            Err(err) => spec_repeat(ref_item(e), input@, start as int, count as int) == Err::<
                (Seq<AssetRefView>, int),
                ParseError,
            >(err),
        },
{
    let ghost item = ref_item(e);
    let mut refs: Vec<AssetRef> = Vec::new();
    assert(ref_views(refs@) =~= Seq::<AssetRefView>::empty());
    let mut cur = start;
    let mut i: u32 = 0;
    while i < count
        invariant
            i <= count,
            item == ref_item(e),
            spec_repeat(item, input@, start as int, i as int) == Ok::<
                (Seq<AssetRefView>, int),
                ParseError,
            >((ref_views(refs@), cur as int)),
        decreases count - i,
    {
        match AssetRef::parse(input, cur, e) {
            Ok((reference, next)) => {
                proof {
                    assert(ref_views(refs@.push(reference)) =~= ref_views(refs@).push(reference@));
                }
                refs.push(reference);
                cur = next;
            },
            Err(err) => {
                proof {
                    lemma_repeat_fails(item, input@, start as int, i + 1, count as int);
                }
                return Err(err);
            },
        }
        i += 1;
    }
    Ok((refs, cur))
}

/// Reads the reference table.
fn read_refs(input: &[u8], pos: usize, e: Endianness, format: u32) -> (r: Result<
    (Vec<AssetRef>, usize),
    ParseError,
>)
    ensures
        match r {
            Ok((refs, next)) => spec_refs(input@, pos as int, e, format) == Ok::<
                (Seq<AssetRefView>, int),
                ParseError,
            >((ref_views(refs@), next as int)),
            Err(err) => spec_refs(input@, pos as int, e, format) == Err::<
                (Seq<AssetRefView>, int),
                ParseError,
            >(err),
        },
{
    if format < 16 {
        let refs: Vec<AssetRef> = Vec::new();
        assert(ref_views(refs@) =~= Seq::<AssetRefView>::empty());
        return Ok((refs, pos));
    }
    let (count, start) = read_u32(input, pos, e)?;
    read_ref_list(input, start, e, count)
}

/// Reads the fixed header of an asset.
fn read_asset_header(input: &[u8], pos: usize) -> (r: Result<
    ((u32, u32, u32, u32, Endianness), usize),
    ParseError,
>)
    ensures
        match r {
            Ok((header, next)) => spec_asset_header(input@, pos as int) == Ok::<
                ((u32, u32, u32, u32, Endianness), int),
                ParseError,
            >((header, next as int)),
            Err(err) => spec_asset_header(input@, pos as int) == Err::<
                ((u32, u32, u32, u32, Endianness), int),
                ParseError,
            >(err),
        },
{
    let (metadata_size, p1) = read_u32(input, pos, Endianness::Big)?;
    let (file_size, p2) = read_u32(input, p1, Endianness::Big)?;
    let (format, p3) = read_u32(input, p2, Endianness::Big)?;
    let (data_offset, p4) = read_u32(input, p3, Endianness::Big)?;
    if format >= 9 {
        let (order, p5) = read_u32(input, p4, Endianness::Big)?;
        let e = if order == 0 {
            Endianness::Little
        } else {
            Endianness::Big
        };
        Ok(((metadata_size, file_size, format, data_offset, e), p5))
    } else {
        Ok(((metadata_size, file_size, format, data_offset, Endianness::Big), p4))
    }
}

/// Reads whether object ids are 64 bits wide.
fn read_long_ids(input: &[u8], pos: usize, e: Endianness, format: u32) -> (r: Result<
    (bool, usize),
    ParseError,
>)
    ensures
        agrees(r, spec_long_ids(input@, pos as int, e, format)),
{
    if 7 <= format && format <= 13 {
        let (flag, next) = read_u32(input, pos, e)?;
        Ok((flag != 0, next))
    } else {
        Ok((false, pos))
    }
}

impl Asset {
    /// Reads the asset called `name` from `input`, whose first byte has the
    /// logical offset `offset`. Gives the asset and the number of bytes its
    /// tables take.
    ///
    /// Every object is decoded through the tree that the asset holds for its
    /// type, else through the default tree of its class in `catalog`. The
    /// first record that cannot be read ends the parse with its error.
    pub fn parse(name: String, input: &[u8], offset: u64, catalog: &Catalog) -> (r: Result<
        (Asset, usize),
        ParseError,
    >)
        ensures
            agrees(
                r,
                spec_asset(
                    name@,
                    input@,
                    offset as int,
                    catalog.strings@,
                    catalog.defaults@.entries,
                ),
            ),
    {
        reveal(spec_asset);
        let ((metadata_size, file_size, format, data_offset, e), p1) = read_asset_header(input, 0)?;
        let (tree, p2) = TypeMetadata::parse(input, p1, e, format, catalog.strings.as_slice())?;
        let (long_ids, p3) = read_long_ids(input, p2, e, format)?;
        let context = Context {
            e,
            format,
            long_ids,
            data_offset,
            offset,
            tree: &tree,
            defaults: &catalog.defaults,
        };
        let (objects, p4) = read_objects(input, p3, &context)?;
        let (adds, p5) = read_adds(input, p4, e, format, offset)?;
        let (refs, p6) = read_refs(input, p5, e, format)?;
        let (_, next) = read_cstring(input, p6)?;
        Ok(
            (
                Asset {
                    name,
                    metadata_size,
                    file_size,
                    format,
                    data_offset,
                    tree,
                    objects,
                    adds,
                    refs,
                },
                next,
            ),
        )
    }

    /// The name of the asset.
    pub fn name(&self) -> (r: &str)
        ensures
            r@ == self@.name,
    {
        self.name.as_str()
    }

    /// The objects of the asset, in file order.
    pub fn objects(&self) -> (r: &[Object])
        ensures
            r@ == self.objects@,
    {
        self.objects.as_slice()
    }
}

} // verus!
