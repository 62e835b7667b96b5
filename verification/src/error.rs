use vstd::prelude::*;

verus! {

/// Failures that one encoded file's discovery or decode can produce.
/// Each is isolated to the file or lookup that raised it.
pub enum Error {
    /// After the last complete frame, this many leftover bytes remain,
    /// too few to form another frame header.
    TrailingData(usize),
    /// A frame declared a payload length longer than the remaining buffer.
    UnexpectedEnd,
    /// A path's file name is absent (or, at the system boundary, not
    /// representable as text).
    BadFilename,
    /// The external codec rejected an encoder instruction or a header block.
    Codec,
}

} // verus!
