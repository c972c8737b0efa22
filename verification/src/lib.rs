//! Reader for UnityFS asset bundles.
//!
//! A bundle is a small header, a compressed metadata block that lists data
//! blocks and named nodes, and the data blocks themselves. The first node is
//! the main asset: it carries type trees and objects, and each object is
//! decoded through its type tree into a [`Data`] value. ETC1 and ETC2 texture
//! payloads can be expanded to RGBA8.

pub mod error;
pub mod bytes;
pub mod lz4;
pub mod compression;
pub mod metadata;
pub mod type_tree;
pub mod asset;
pub mod container;
pub mod etc;
pub mod texture;

pub use asset::Asset;
pub use asset::AssetRef;
pub use asset::Object;
pub use bytes::Endianness;
pub use bytes::align;
pub use bytes::read_string;
pub use compression::CompressedBlock;
pub use compression::CompressedBlockStorage;
pub use container::UnityFs;
pub use container::UnityFsMeta;
pub use error::Lz4Error;
pub use error::ParseError;
pub use etc::DecodeFormat;
pub use etc::decode_single_block;
pub use lz4::decode_block;
pub use metadata::ArchiveBlockInfo;
pub use metadata::Metadata;
pub use metadata::NodeInfo;
pub use texture::Texture2D;
pub use texture::decode_texture;
pub use type_tree::Catalog;
pub use type_tree::Data;
pub use type_tree::TypeMetadata;
pub use type_tree::TypeTree;
