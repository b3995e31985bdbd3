use vstd::prelude::*;

verus! {

/// The ways in which an operation of this library can fail.
#[derive(Debug, Clone, Copy, PartialEq, Eq, Structural)]
pub enum PngError {
    /// A malformed chunk type string, or a chunk record that is truncated
    /// or declares more data than is present.
    Format,
    /// The buffer does not start with the PNG signature.
    Signature,
    /// A chunk's stored CRC differs from the CRC of its type and data.
    Checksum,
    /// A chunk's data is not valid UTF-8 text.
    Encoding,
    /// No chunk of the requested type is present.
    NotFound,
}

} // verus!
