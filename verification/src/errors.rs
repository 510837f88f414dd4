//! Error taxonomy: the engine's fine-grained status codes and the
//! coarser error types the public facades return.

use vstd::prelude::*;

verus! {

/// Fine-grained engine failures, one per native status code.
///
/// The decoder reports these directly; the public facades collapse them
/// into [`Error`] and [`StreamError`] without losing the distinction
/// between data-integrity failures (checksum, corruption) and
/// resource-capacity failures (buffer, memory).
#[derive(Debug, Clone, Copy, PartialEq, Eq, Structural)]
pub enum EngineError {
    /// Memory allocation failure.
    Memory,
    /// Destination buffer too small.
    DstTooSmall,
    /// Source buffer too small or truncated input.
    SrcTooSmall,
    /// Invalid magic word in the footer.
    BadMagic,
    /// Unsupported container format version.
    BadVersion,
    /// Corrupted footer metadata (its integrity check failed).
    BadHeader,
    /// Payload checksum verification failed.
    BadChecksum,
    /// Corrupted compressed data.
    CorruptData,
    /// Invalid match offset during decompression.
    BadOffset,
    /// Arithmetic overflow detected during processing.
    Overflow,
    /// Read, write or seek failure on a file.
    Io,
    /// A required input was absent.
    NullInput,
    /// Unknown or unexpected block type.
    BadBlockType,
    /// A status code outside the known taxonomy.
    Unknown(i64),
}

/// The signed status code each engine failure stands for on the wire.
pub open spec fn engine_code_spec(e: EngineError) -> int {
    match e {
        EngineError::Memory => -1,
        EngineError::DstTooSmall => -2,
        EngineError::SrcTooSmall => -3,
        EngineError::BadMagic => -4,
        EngineError::BadVersion => -5,
        EngineError::BadHeader => -6,
        EngineError::BadChecksum => -7,
        EngineError::CorruptData => -8,
        EngineError::BadOffset => -9,
        EngineError::Overflow => -10,
        EngineError::Io => -11,
        EngineError::NullInput => -12,
        EngineError::BadBlockType => -13,
        EngineError::Unknown(c) => c as int,
    }
}

/// The engine failure a signed status code stands for. Non-negative codes
/// are not failures and map to `Unknown`.
pub open spec fn engine_error_of_code_spec(code: int) -> EngineError {
    if code == -1 {
        EngineError::Memory
    } else if code == -2 {
        EngineError::DstTooSmall
    } else if code == -3 {
        EngineError::SrcTooSmall
    } else if code == -4 {
        EngineError::BadMagic
    } else if code == -5 {
        EngineError::BadVersion
    } else if code == -6 {
        EngineError::BadHeader
    } else if code == -7 {
        EngineError::BadChecksum
    } else if code == -8 {
        EngineError::CorruptData
    } else if code == -9 {
        EngineError::BadOffset
    } else if code == -10 {
        EngineError::Overflow
    } else if code == -11 {
        EngineError::Io
    } else if code == -12 {
        EngineError::NullInput
    } else if code == -13 {
        EngineError::BadBlockType
    } else {
        EngineError::Unknown(code as i64)
    }
}

impl EngineError {
    /// The signed status code this failure stands for.
    pub fn code(self) -> (r: i64)
        ensures
            r as int == engine_code_spec(self),
    {
        match self {
            EngineError::Memory => -1,
            EngineError::DstTooSmall => -2,
            EngineError::SrcTooSmall => -3,
            EngineError::BadMagic => -4,
            EngineError::BadVersion => -5,
            EngineError::BadHeader => -6,
            EngineError::BadChecksum => -7,
            EngineError::CorruptData => -8,
            EngineError::BadOffset => -9,
            EngineError::Overflow => -10,
            EngineError::Io => -11,
            EngineError::NullInput => -12,
            EngineError::BadBlockType => -13,
            EngineError::Unknown(c) => c,
        }
    }
}

/// Maps a signed engine result to a typed outcome: a non-negative value is
/// a byte count, a negative value is a failure from the taxonomy.
pub fn classify_engine_result(code: i64) -> (r: Result<u64, EngineError>)
    ensures
        code >= 0 ==> r == Result::<u64, EngineError>::Ok(code as u64),
        code < 0 ==> r == Result::<u64, EngineError>::Err(engine_error_of_code_spec(code as int)),
{
    if code >= 0 {
        Ok(code as u64)
    } else if code == -1 {
        Err(EngineError::Memory)
    } else if code == -2 {
        Err(EngineError::DstTooSmall)
    } else if code == -3 {
        Err(EngineError::SrcTooSmall)
    } else if code == -4 {
        Err(EngineError::BadMagic)
    } else if code == -5 {
        Err(EngineError::BadVersion)
    } else if code == -6 {
        Err(EngineError::BadHeader)
    } else if code == -7 {
        Err(EngineError::BadChecksum)
    } else if code == -8 {
        Err(EngineError::CorruptData)
    } else if code == -9 {
        Err(EngineError::BadOffset)
    } else if code == -10 {
        Err(EngineError::Overflow)
    } else if code == -11 {
        Err(EngineError::Io)
    } else if code == -12 {
        Err(EngineError::NullInput)
    } else if code == -13 {
        Err(EngineError::BadBlockType)
    } else {
        Err(EngineError::Unknown(code))
    }
}

/// The constant name of each status code, `"ZXC_UNKNOWN_ERROR"` for codes
/// outside the taxonomy.
pub open spec fn error_name_spec(code: int) -> Seq<char> {
    if code == 0 {
        "ZXC_OK"@
    } else if code == -1 {
        "ZXC_ERROR_MEMORY"@
    } else if code == -2 {
        "ZXC_ERROR_DST_TOO_SMALL"@
    } else if code == -3 {
        "ZXC_ERROR_SRC_TOO_SMALL"@
    } else if code == -4 {
        "ZXC_ERROR_BAD_MAGIC"@
    } else if code == -5 {
        "ZXC_ERROR_BAD_VERSION"@
    } else if code == -6 {
        "ZXC_ERROR_BAD_HEADER"@
    } else if code == -7 {
        "ZXC_ERROR_BAD_CHECKSUM"@
    } else if code == -8 {
        "ZXC_ERROR_CORRUPT_DATA"@
    } else if code == -9 {
        "ZXC_ERROR_BAD_OFFSET"@
    } else if code == -10 {
        "ZXC_ERROR_OVERFLOW"@
    } else if code == -11 {
        "ZXC_ERROR_IO"@
    } else if code == -12 {
        "ZXC_ERROR_NULL_INPUT"@
    } else if code == -13 {
        "ZXC_ERROR_BAD_BLOCK_TYPE"@
    } else {
        "ZXC_UNKNOWN_ERROR"@
    }
}

/// Returns the constant name of a status code.
pub fn error_name(code: i32) -> (r: &'static str)
    ensures
        r@ == error_name_spec(code as int),
{
    if code == 0 {
        "ZXC_OK"
    } else if code == -1 {
        "ZXC_ERROR_MEMORY"
    } else if code == -2 {
        "ZXC_ERROR_DST_TOO_SMALL"
    } else if code == -3 {
        "ZXC_ERROR_SRC_TOO_SMALL"
    } else if code == -4 {
        "ZXC_ERROR_BAD_MAGIC"
    } else if code == -5 {
        "ZXC_ERROR_BAD_VERSION"
    } else if code == -6 {
        "ZXC_ERROR_BAD_HEADER"
    } else if code == -7 {
        "ZXC_ERROR_BAD_CHECKSUM"
    } else if code == -8 {
        "ZXC_ERROR_CORRUPT_DATA"
    } else if code == -9 {
        "ZXC_ERROR_BAD_OFFSET"
    } else if code == -10 {
        "ZXC_ERROR_OVERFLOW"
    } else if code == -11 {
        "ZXC_ERROR_IO"
    } else if code == -12 {
        "ZXC_ERROR_NULL_INPUT"
    } else if code == -13 {
        "ZXC_ERROR_BAD_BLOCK_TYPE"
    } else {
        "ZXC_UNKNOWN_ERROR"
    }
}

/// The reason string for a decompression failure on invalid or oversized data.
pub open spec fn msg_invalid_data() -> Seq<char> {
    "invalid data or buffer too small"@
}

/// The reason string for a decompression whose output length disagrees with
/// the footer's recorded size.
pub open spec fn msg_size_mismatch() -> Seq<char> {
    "size mismatch"@
}

/// Errors from the buffer compression API.
#[derive(Debug)]
pub enum Error {
    /// Compression failed (output buffer too small or internal error).
    CompressionFailed,
    /// Decompression failed (invalid data, corruption, or buffer too small),
    /// with a reason.
    DecompressionFailed(&'static str),
    /// The compressed data is invalid or truncated: its footer is unreadable.
    InvalidData,
}

impl Error {
    /// A short description of the failure, in the place of a `Display`
    /// implementation.
    pub fn message(&self) -> (r: String)
        ensures
            r@ == match self {
                Error::CompressionFailed => "compression failed"@,
                Error::DecompressionFailed(m) => "decompression failed: "@ + m@,
                Error::InvalidData => "invalid compressed data"@,
            },
    {
        match self {
            Error::CompressionFailed => String::from_str("compression failed"),
            Error::DecompressionFailed(m) => String::from_str("decompression failed: ").concat(m),
            Error::InvalidData => String::from_str("invalid compressed data"),
        }
    }
}

/// Errors from the streaming API.
#[derive(Debug)]
pub enum StreamError {
    /// I/O error during file operations.
    Io(std::io::Error),
    /// Streaming compression failed.
    CompressionFailed,
    /// Streaming decompression failed.
    DecompressionFailed,
    /// Invalid compressed file.
    InvalidFile,
}

impl StreamError {
    /// A short description of the failure, in the place of a `Display`
    /// implementation.
    pub fn message(&self) -> (r: String)
        ensures
            r@ == match self {
                StreamError::Io(_) => "I/O error"@,
                StreamError::CompressionFailed => "stream compression failed"@,
                StreamError::DecompressionFailed => "stream decompression failed"@,
                StreamError::InvalidFile => "invalid compressed file"@,
            },
    {
        match self {
            StreamError::Io(_) => String::from_str("I/O error"),
            StreamError::CompressionFailed => String::from_str("stream compression failed"),
            StreamError::DecompressionFailed => String::from_str("stream decompression failed"),
            StreamError::InvalidFile => String::from_str("invalid compressed file"),
        }
    }
}

/// Declares `std::io::Error` to the verifier so that [`StreamError`] can
/// carry one. The type is opaque: nothing is assumed about its behaviour,
/// and no verified code constructs or inspects a value of it.
#[verifier::external_type_specification]
#[verifier::external_body]
pub struct ExIoError(std::io::Error);

} // verus!
