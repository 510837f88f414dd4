//! Option bundles for the buffer and streaming APIs.

use vstd::prelude::*;

use crate::level::Level;

verus! {

/// Options for buffer compression.
#[derive(Debug, Clone)]
pub struct CompressOptions {
    /// Compression level.
    pub level: Level,
    /// Record an integrity checksum of the payload in the footer.
    pub checksum: bool,
}

impl Default for CompressOptions {
    /// The defaults: `Level::Default`, checksum enabled.
    fn default() -> (r: Self)
        ensures
            r.level == Level::Default,
            r.checksum == true,
    {
        CompressOptions { level: Level::Default, checksum: true }
    }
}

impl CompressOptions {
    /// Create options with the specified compression level and the
    /// remaining fields at their defaults.
    pub fn with_level(level: Level) -> (r: Self)
        ensures
            r.level == level,
            r.checksum == true,
    {
        CompressOptions { level, checksum: true }
    }

    /// Disable checksum computation for faster compression.
    pub fn without_checksum(self) -> (r: Self)
        ensures
            r.level == self.level,
            r.checksum == false,
    {
        CompressOptions { level: self.level, checksum: false }
    }
}

/// Options for buffer decompression.
#[derive(Debug, Clone)]
pub struct DecompressOptions {
    /// Verify the payload checksum, where the compressed data records one.
    pub verify_checksum: bool,
}

impl Default for DecompressOptions {
    /// The default: checksum verification off.
    fn default() -> (r: Self)
        ensures
            r.verify_checksum == false,
    {
        DecompressOptions { verify_checksum: false }
    }
}

impl DecompressOptions {
    /// Create options that skip checksum verification.
    pub fn skip_checksum() -> (r: Self)
        ensures
            r.verify_checksum == false,
    {
        DecompressOptions { verify_checksum: false }
    }
}

/// Options for streaming compression.
#[derive(Debug, Clone)]
pub struct StreamCompressOptions {
    /// Compression level.
    pub level: Level,
    /// Number of worker threads (`None` = auto-detect CPU cores). The
    /// produced bytes do not depend on this; it only sizes the worker pool.
    pub threads: Option<usize>,
    /// Record an integrity checksum of the payload in the footer.
    pub checksum: bool,
}

impl Default for StreamCompressOptions {
    /// The defaults: `Level::Default`, auto-detected threads, checksum on.
    fn default() -> (r: Self)
        ensures
            r.level == Level::Default,
            r.threads is None,
            r.checksum == true,
    {
        StreamCompressOptions { level: Level::Default, threads: None, checksum: true }
    }
}

impl StreamCompressOptions {
    /// Create options with the specified compression level and the
    /// remaining fields at their defaults.
    pub fn with_level(level: Level) -> (r: Self)
        ensures
            r.level == level,
            r.threads is None,
            r.checksum == true,
    {
        StreamCompressOptions { level, threads: None, checksum: true }
    }

    /// Set the number of worker threads.
    pub fn threads(self, n: usize) -> (r: Self)
        ensures
            r.level == self.level,
            r.threads == Some(n),
            r.checksum == self.checksum,
    {
        StreamCompressOptions { level: self.level, threads: Some(n), checksum: self.checksum }
    }

    /// Disable checksum computation.
    pub fn without_checksum(self) -> (r: Self)
        ensures
            r.level == self.level,
            r.threads == self.threads,
            r.checksum == false,
    {
        StreamCompressOptions { level: self.level, threads: self.threads, checksum: false }
    }
}

/// Options for streaming decompression.
#[derive(Debug, Clone)]
pub struct StreamDecompressOptions {
    /// Number of worker threads (`None` = auto-detect CPU cores). The
    /// decoded bytes do not depend on this; it only sizes the worker pool.
    pub threads: Option<usize>,
    /// Verify the payload checksum, where the compressed data records one.
    pub verify_checksum: bool,
}

impl Default for StreamDecompressOptions {
    /// The defaults: auto-detected threads, checksum verification off.
    fn default() -> (r: Self)
        ensures
            r.threads is None,
            r.verify_checksum == false,
    {
        StreamDecompressOptions { threads: None, verify_checksum: false }
    }
}

impl StreamDecompressOptions {
    /// Set the number of worker threads.
    pub fn threads(self, n: usize) -> (r: Self)
        ensures
            r.threads == Some(n),
            r.verify_checksum == self.verify_checksum,
    {
        StreamDecompressOptions { threads: Some(n), verify_checksum: self.verify_checksum }
    }

    /// Skip checksum verification.
    pub fn skip_checksum(self) -> (r: Self)
        ensures
            r.threads == self.threads,
            r.verify_checksum == false,
    {
        StreamDecompressOptions { threads: self.threads, verify_checksum: false }
    }
}

} // verus!
