//! Error kinds shared by every parser and decoder of the crate.

use vstd::prelude::*;

verus! {

/// Why an LZ4 block could not be decoded.
#[derive(Copy, Clone, Debug, PartialEq, Eq, Hash, Structural)]
pub enum Lz4Error {
    /// The stream stops inside a length chain, a literal or a match offset.
    UnexpectedEnd,
    /// A match offset is zero or reaches before the start of the output.
    InvalidLookback,
}

/// A field of a `Texture2D` or `StreamingInfo` object.
#[derive(Copy, Clone, Debug, PartialEq, Eq, Hash, Structural)]
pub enum TextureField {
    Name,
    Width,
    Height,
    ImageData,
    TextureFormat,
    StreamData,
    Path,
    Offset,
    Size,
}

/// Why a container, an asset, an object or a texture could not be read.
#[derive(Copy, Clone, Debug, PartialEq, Eq, Hash, Structural)]
pub enum ParseError {
    /// Fewer bytes remain than the next item needs.
    TruncatedInput,
    /// The container header or its tables contradict each other.
    BadHeader,
    /// A block uses LZMA or LZHAM, which are not implemented.
    UnsupportedCompression,
    /// A compressed block is not a valid LZ4 stream.
    Lz4BadStream(Lz4Error),
    /// A block expands to another length than the one declared for it.
    Lz4SizeMismatch,
    /// A type tree has an impossible shape.
    BadTypeTree,
    /// Neither the asset nor the default catalog knows the class.
    MissingTypeTree { class_id: i32 },
    /// The texture format code is not one this crate decodes.
    TextureFormatUnsupported { code: i32 },
    /// A texture field is absent or has another type than expected.
    TextureFieldMismatch { field: TextureField },
    /// A streamed texture names a resource the container does not hold.
    StreamingResourceMissing,
}

impl Lz4Error {
    /// The message of the error.
    pub fn message(&self) -> (s: String)
        ensures
            s@ == (match *self {
                Lz4Error::UnexpectedEnd => "unexpected end of input"@,
                Lz4Error::InvalidLookback => "invalid lookback offset"@,
            }),
    {
        match self {
            Lz4Error::UnexpectedEnd => "unexpected end of input".to_string(),
            Lz4Error::InvalidLookback => "invalid lookback offset".to_string(),
        }
    }
}

} // verus!
