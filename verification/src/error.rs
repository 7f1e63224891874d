use vstd::prelude::*;

verus! {

/// Everything that can go wrong while decoding a source map document.
///
/// Every error aborts decoding immediately; no partial results are returned.
/// Encoding and lookup are total over well-formed data and never fail.
#[derive(Debug, Clone, Copy, PartialEq, Eq, Structural)]
pub enum Error {
    /// The document's `version` field is not `3`.
    UnsupportedVersion,
    /// A mapping segment decoded to a VLQ count other than 1, 4 or 5 (the
    /// count is carried along), or a delta produced a negative column or
    /// line (carried as 0).
    BadSegmentSize(u32),
    /// A source id ran outside `[0, sources.len())`, or an ignore-list entry
    /// did.
    BadSourceReference(u32),
    /// A name id ran outside `[0, names.len())`.
    BadNameReference(u32),
    /// A VLQ run accumulated more bits than a value may hold.
    VlqOverflow,
    /// A VLQ run ended without a terminating group.
    VlqLeftover,
    /// A segment between separators produced zero decoded values.
    VlqNoValues,
    /// The document is not valid JSON, or an envelope field has the wrong
    /// shape.
    InvalidJson,
}

} // verus!
