use vstd::prelude::*;

verus! {

/// Why a lookup rejected the table file it was reading.
///
/// Every variant is fatal for the current lookup and is never retried; the
/// miss outcomes of a lookup are not errors and are reported through
/// `LookupResult` instead.
#[derive(Clone, Copy, Debug, PartialEq, Eq, Structural)]
pub enum FormatError {
    /// The file does not begin with the expected magic number.
    BadMagic,
    /// A derived byte range reaches outside the region that must contain it.
    Truncated,
    /// A decompressed key-path block starts with an unknown tag byte.
    UnknownBlockType,
    /// A key-block entry record carries an unknown entry-type tag.
    UnknownEntryType,
    /// A block's compressed frame is corrupt or disagrees with the recorded
    /// uncompressed length.
    BadFrame,
    /// The membership-filter section does not deserialize.
    BadFilter,
    /// Index blocks form a cycle instead of reaching a key block.
    CyclicIndex,
}

impl FormatError {
    /// A short human-readable description of the error.
    pub fn describe(&self) -> (r: &'static str)
    {
        match self {
            FormatError::BadMagic => "invalid magic number or version",
            FormatError::Truncated => "byte range out of bounds",
            FormatError::UnknownBlockType => "invalid block type",
            FormatError::UnknownEntryType => "invalid key block entry type",
            FormatError::BadFrame => "corrupt compressed block",
            FormatError::BadFilter => "corrupt membership filter",
            FormatError::CyclicIndex => "index blocks form a cycle",
        }
    }
}

} // verus!
