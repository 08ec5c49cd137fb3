//! Error kinds reported by the codec.
use vstd::prelude::*;

verus! {

/// Failure of one of the compression strategies.
#[derive(Debug, Clone, PartialEq, Eq)]
pub enum NPNGCompressingError {
    CompressingError(String),
    DecompressingError(String),
}

/// Every way an encode or decode call can fail.
#[derive(Debug, Clone, PartialEq, Eq)]
pub enum NPNGError {
    /// A primitive record could not be encoded.
    EncodingError(String),
    /// A primitive record could not be decoded.
    DecodingError(String),
    /// Configuration misuse: empty or non-ASCII names, too many pixels.
    Error(String),
    /// Magic mismatch, header too long, or malformed header fields.
    InvalidHeader(String),
    /// Malformed footer or CRC mismatch.
    InvalidChecksum(String),
    /// Two pixels share the same coordinates.
    DuplicatePixel(u16, u16),
    /// A compression strategy failed or was misconfigured.
    Compression(NPNGCompressingError),
    /// I/O failure reported by a collaborator outside the codec core.
    Io(String),
}

impl NPNGCompressingError {
    /// A human-readable description of the failure.
    pub fn message(&self) -> (r: String)
        ensures
            r@ == match self {
                NPNGCompressingError::CompressingError(m) => m@,
                NPNGCompressingError::DecompressingError(m) => m@,
            },
    {
        match self {
            NPNGCompressingError::CompressingError(m) => m.clone(),
            NPNGCompressingError::DecompressingError(m) => m.clone(),
        }
    }
}

impl NPNGError {
    /// A human-readable description of the failure.
    pub fn message(&self) -> (r: String)
    {
        match self {
            NPNGError::EncodingError(m) => m.clone(),
            NPNGError::DecodingError(m) => m.clone(),
            NPNGError::Error(m) => m.clone(),
            NPNGError::InvalidHeader(m) => m.clone(),
            NPNGError::InvalidChecksum(m) => m.clone(),
            NPNGError::DuplicatePixel(_, _) => String::from_str("duplicate pixel coordinates"),
            NPNGError::Compression(e) => e.message(),
            NPNGError::Io(m) => m.clone(),
        }
    }
}

} // verus!
