//! ZXC: a lossless data-compression library.
//!
//! The crate offers two layers over one container format:
//!
//! * a buffer API ([`compress`], [`decompress`], [`decompressed_size`])
//!   that works on byte slices, and
//! * a chunked streaming API ([`StreamCompressor`], [`StreamDecompressor`])
//!   that processes data block by block, so a caller can pump a file of any
//!   size through it without holding the whole file in memory.
//!
//! Compressed data ends in a fixed-size footer that records the original
//! size together with its own integrity check, so the decompressed size can
//! be read without decompressing anything. Every function carries a contract,
//! and the round-trip between compression and decompression is proved.

pub mod buffer;
pub mod bytes;
pub mod checksum;
pub mod container;
pub mod errors;
pub mod footer;
pub mod level;
pub mod options;
pub mod stream;
pub mod tokens;

pub use buffer::compress;
pub use buffer::compress_bound;
pub use buffer::compress_to;
pub use buffer::compress_with_options;
pub use buffer::decompress;
pub use buffer::decompress_to;
pub use buffer::decompress_with_options;
pub use buffer::decompressed_size;
pub use buffer::version;
pub use buffer::version_string;
pub use errors::Error;
pub use errors::StreamError;
pub use level::Level;
pub use options::CompressOptions;
pub use options::DecompressOptions;
pub use options::StreamCompressOptions;
pub use options::StreamDecompressOptions;
pub use stream::StreamCompressor;
pub use stream::StreamDecompressor;
