//! The structured errors of the library; no operation panics on
//! malformed external input.

use vstd::prelude::*;

verus! {

/// Why a binary schematic could not be decoded.
#[derive(Debug, Clone, Copy, PartialEq, Eq, Structural)]
pub enum ParseErrorKind {
    /// The input does not start with the magic bytes `MTSM`.
    BadMagic,
    /// The declared format version is not 4.
    UnsupportedVersion,
    /// A declared dimension reaches the maximum map dimension.
    DimensionOutOfRange,
    /// A layer probability byte is greater than 127.
    InvalidProbability,
    /// A content name is not valid UTF-8.
    InvalidName,
    /// The input ended before a field could be read completely.
    Truncated,
    /// The compressed cell payload could not be decompressed, or is shorter
    /// than the three cell arrays require.
    CorruptPayload,
    /// A cell's content id is not an index into the content dictionary.
    InvalidContentId,
}

/// Errors reported by grid construction, editing, validation and decoding.
#[derive(Debug)]
pub enum Error {
    /// The grid stores a different number of cells than its dimensions imply.
    IncorrectNodeCount { found: usize, expected: usize },
    /// The grid stores a different number of layer probabilities than it has
    /// Y layers.
    IncorrectNumberOfLayerProbabilities,
    /// A cell's content id has no entry in the content dictionary.
    InvalidContentIndex(u16),
    /// A content name has no id in the content dictionary.
    InvalidContentName(String),
    /// A coordinate, box or coordinate sum exceeds the grid dimensions or the
    /// maximum map dimension.
    OutOfBounds,
    /// The bytes handed to the decoder do not form a valid schematic.
    ParseError(ParseErrorKind),
}

} // verus!
