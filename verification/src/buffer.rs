//! The buffer API: compression and decompression of in-memory byte
//! slices, the size query, and the version accessors.

use vstd::prelude::*;
use vstd::string::StringExecFns;

use crate::checksum::adler32;
use crate::checksum::adler32_spec;
use crate::container::compress_container;
use crate::container::compressed_for;
use crate::container::container_ok;
use crate::container::container_value;
use crate::container::decode_container;
use crate::errors::msg_invalid_data;
use crate::errors::msg_size_mismatch;
use crate::errors::Error;
use crate::level::Level;
use crate::options::CompressOptions;
use crate::options::DecompressOptions;
use crate::footer::footer_has_checksum;
use crate::footer::footer_orig;
use crate::footer::footer_sum;
use crate::footer::footer_well_formed;
use crate::footer::read_footer;

verus! {

/// The library's major version.
pub const VERSION_MAJOR: u32 = 1;

/// The library's minor version.
pub const VERSION_MINOR: u32 = 0;

/// The library's patch version.
pub const VERSION_PATCH: u32 = 0;

/// The worst-case compressed size for `n` input bytes: the input itself,
/// one 9-byte header per full block plus one for a trailing partial block,
/// the end marker and the footer.
pub open spec fn compress_bound_spec(n: int) -> int {
    n + 9 * (n / 0x10_0000) + 34
}

/// What the size query reads from the tail of `s`: the original size
/// recorded in a well-formed footer, `Some(0)` for an empty buffer, and
/// nothing otherwise.
pub open spec fn size_query(s: Seq<u8>) -> Option<int> {
    if s.len() == 0 {
        Some(0 as int)
    } else if s.len() < 24 {
        None
    } else {
        let f = s.skip(s.len() - 24);
        if footer_well_formed(f) && footer_orig(f) <= usize::MAX as int {
            Some(footer_orig(f))
        } else {
            None
        }
    }
}

/// Whether the engine-level decode of container `s` succeeds against
/// `cap` writable output bytes, verifying the payload checksum where
/// `verify` is set and the container records one.
pub open spec fn payload_decode_ok(s: Seq<u8>, cap: int, verify: bool) -> bool {
    &&& container_ok(s, cap)
    &&& (verify && footer_has_checksum(s.skip(s.len() - 24)) ==> adler32_spec(container_value(s))
        == footer_sum(s.skip(s.len() - 24)))
}

/// Whether decompression of `s` is specified to succeed: an empty buffer
/// decompresses to nothing; otherwise the footer must be readable, the
/// blocks must decode within the recorded size, the checksum must agree
/// where verified, and the decoded length must equal the recorded size.
pub open spec fn decompress_ok(s: Seq<u8>, verify: bool) -> bool {
    ||| s.len() == 0
    ||| {
        &&& size_query(s) is Some
        &&& payload_decode_ok(s, size_query(s)->Some_0, verify)
        &&& container_value(s).len() == size_query(s)->Some_0
    }
}

/// The bytes `s` decompresses to, where decompression succeeds.
pub open spec fn decompressed_value(s: Seq<u8>) -> Seq<u8> {
    if s.len() == 0 {
        Seq::empty()
    } else {
        container_value(s)
    }
}

/// Whether decompression into a caller buffer of `cap` bytes succeeds:
/// the footer must be readable and the blocks must decode within `cap`,
/// with the checksum agreeing where verified. The recorded original size
/// is not compared against the decoded length here; that check belongs to
/// the allocating decompression entry points.
pub open spec fn decompress_into_ok(s: Seq<u8>, cap: int, verify: bool) -> bool {
    &&& s.len() >= 24
    &&& footer_well_formed(s.skip(s.len() - 24))
    &&& payload_decode_ok(s, cap, verify)
}

/// Returns the maximum compressed size for an input of the given size.
///
/// Use this to size a buffer before calling [`compress_to`]. The result
/// is strictly greater than `input_size`.
pub fn compress_bound(input_size: usize) -> (r: usize)
    requires
        compress_bound_spec(input_size as int) <= usize::MAX as int,
    ensures
        r as int == compress_bound_spec(input_size as int),
        r > input_size,
{
    proof {
        vstd::arithmetic::div_mod::lemma_div_pos_is_pos(input_size as int, 0x10_0000);
    }
    input_size + 9 * (input_size / 0x10_0000) + 34
}

/// The worst-case compressed size always exceeds the input size, for
/// every input size.
pub proof fn lemma_bound_exceeds(n: int)
    requires
        n >= 0,
    ensures
        compress_bound_spec(n) > n,
{
    vstd::arithmetic::div_mod::lemma_div_pos_is_pos(n, 0x10_0000);
}

/// Compresses data with full options control.
///
/// Compression cannot fail: every input, the empty one included, has a
/// compressed representation, which decompression is proved to map back
/// to the input.
pub fn compress_with_options(data: &[u8], options: &CompressOptions) -> (r: Result<Vec<u8>, Error>)
    ensures
        r is Ok,
        compressed_for(r->Ok_0@, data@, options.checksum),
        r->Ok_0@.len() <= compress_bound_spec(data@.len() as int),
{
    Ok(compress_container(data, options.checksum))
}

/// Compresses data with the specified level.
///
/// `checksum` selects whether an integrity checksum of the input is
/// recorded (`None` means no checksum, for maximum speed).
pub fn compress(data: &[u8], level: Level, checksum: Option<bool>) -> (r: Result<Vec<u8>, Error>)
    ensures
        r is Ok,
        compressed_for(r->Ok_0@, data@, checksum == Some(true)),
        r->Ok_0@.len() <= compress_bound_spec(data@.len() as int),
{
    let on: bool = match checksum {
        Some(b) => b,
        None => false,
    };
    let opts = CompressOptions { level, checksum: on };
    compress_with_options(data, &opts)
}

/// Compresses data into a pre-allocated buffer, returning the number of
/// bytes written. A buffer of at least
/// `compress_bound(data.len())` bytes is always large enough.
pub fn compress_to(data: &[u8], output: &mut Vec<u8>, options: &CompressOptions) -> (r: Result<
    usize,
    Error,
>)
    ensures
        final(output)@.len() == old(output)@.len(),
        match r {
            Ok(k) => {
                &&& k <= old(output)@.len()
                &&& compressed_for(final(output)@.subrange(0, k as int), data@, options.checksum)
                &&& k as int <= compress_bound_spec(data@.len() as int)
                &&& final(output)@.skip(k as int) =~= old(output)@.skip(k as int)
            },
            Err(e) => {
                &&& e == Error::CompressionFailed
                &&& final(output)@ == old(output)@
                &&& old(output)@.len() < compress_bound_spec(data@.len() as int)
            },
        },
{
    let tmp = compress_container(data, options.checksum);
    let k = tmp.len();
    if k > output.len() {
        return Err(Error::CompressionFailed);
    }
    let mut j: usize = 0;
    while j < k
        invariant
            j <= k,
            k == tmp@.len(),
            k <= output@.len(),
            output@.len() == old(output)@.len(),
            forall|t: int| 0 <= t < j ==> output@[t] == tmp@[t],
            forall|t: int| j <= t < output@.len() ==> output@[t] == old(output)@[t],
        decreases k - j,
    {
        let b = tmp[j];
        output.set(j, b);
        j = j + 1;
    }
    assert(output@.subrange(0, k as int) =~= tmp@);
    assert(output@.skip(k as int) =~= old(output)@.skip(k as int));
    Ok(k)
}

/// Returns the original uncompressed size recorded in compressed data.
///
/// This reads the footer without performing decompression. Returns `None`
/// if the data is invalid or truncated.
pub fn decompressed_size(compressed: &[u8]) -> (r: Option<usize>)
    ensures
        match r {
            Some(k) => size_query(compressed@) == Some(k as int),
            None => size_query(compressed@) is None,
        },
{
    let n = compressed.len();
    if n == 0 {
        return Some(0);
    }
    if n < 24 {
        return None;
    }
    match read_footer(compressed) {
        None => None,
        Some((orig, _, _)) => {
            if orig > usize::MAX as u64 {
                None
            } else {
                Some(orig as usize)
            }
        },
    }
}

/// Decompresses data with full options control.
///
/// The contract says exactly when each outcome comes: success if and only
/// if the buffer is empty or its footer is readable, its blocks decode
/// within the recorded size to exactly that size, and the checksum agrees
/// where verified; `InvalidData` when the footer is unreadable; and a
/// decompression failure otherwise, with a reason distinguishing a decoded
/// length that disagrees with the footer from invalid data.
pub fn decompress_with_options(compressed: &[u8], options: &DecompressOptions) -> (r: Result<
    Vec<u8>,
    Error,
>)
    ensures
        match r {
            Ok(v) => decompress_ok(compressed@, options.verify_checksum) && v@
                == decompressed_value(compressed@),
            Err(e) => !decompress_ok(compressed@, options.verify_checksum) && match e {
                Error::InvalidData => size_query(compressed@) is None,
                Error::DecompressionFailed(m) => size_query(compressed@) is Some && (
                if payload_decode_ok(
                    compressed@,
                    size_query(compressed@)->Some_0,
                    options.verify_checksum,
                ) {
                    m@ == msg_size_mismatch()
                } else {
                    m@ == msg_invalid_data()
                }),
                Error::CompressionFailed => false,
            },
        },
{
    let n = compressed.len();
    if n == 0 {
        return Ok(Vec::new());
    }
    if n < 24 {
        return Err(Error::InvalidData);
    }
    let (orig, has, sum) = match read_footer(compressed) {
        None => {
            return Err(Error::InvalidData);
        },
        Some(t) => t,
    };
    if orig > usize::MAX as u64 {
        return Err(Error::InvalidData);
    }
    let size: usize = orig as usize;
    let v = match decode_container(compressed, size) {
        Err(_) => {
            return Err(Error::DecompressionFailed("invalid data or buffer too small"));
        },
        Ok(v) => v,
    };
    if options.verify_checksum && has {
        let a = adler32(v.as_slice());
        if a != sum {
            return Err(Error::DecompressionFailed("invalid data or buffer too small"));
        }
    }
    if v.len() != size {
        return Err(Error::DecompressionFailed("size mismatch"));
    }
    Ok(v)
}

/// Decompresses compressed data, without checksum verification.
pub fn decompress(compressed: &[u8]) -> (r: Result<Vec<u8>, Error>)
    ensures
        match r {
            Ok(v) => decompress_ok(compressed@, false) && v@ == decompressed_value(compressed@),
            Err(e) => !decompress_ok(compressed@, false) && match e {
                Error::InvalidData => size_query(compressed@) is None,
                Error::DecompressionFailed(m) => size_query(compressed@) is Some && (
                if payload_decode_ok(compressed@, size_query(compressed@)->Some_0, false) {
                    m@ == msg_size_mismatch()
                } else {
                    m@ == msg_invalid_data()
                }),
                Error::CompressionFailed => false,
            },
        },
{
    let opts = DecompressOptions::default();
    decompress_with_options(compressed, &opts)
}

/// Decompresses data into a pre-allocated buffer, returning the number of
/// bytes written. The buffer's length is the capacity offered to the
/// decoder; bytes past the decoded length keep their old values.
pub fn decompress_to(compressed: &[u8], output: &mut Vec<u8>, options: &DecompressOptions) -> (r:
    Result<usize, Error>)
    ensures
        final(output)@.len() == old(output)@.len(),
        match r {
            Ok(k) => if compressed@.len() == 0 {
                k == 0 && final(output)@ == old(output)@
            } else {
                &&& decompress_into_ok(compressed@, old(output)@.len() as int, options.verify_checksum)
                &&& k as int == container_value(compressed@).len()
                &&& final(output)@.subrange(0, k as int) =~= container_value(compressed@)
                &&& final(output)@.skip(k as int) =~= old(output)@.skip(k as int)
            },
            Err(e) => {
                &&& compressed@.len() > 0
                &&& !decompress_into_ok(
                    compressed@,
                    old(output)@.len() as int,
                    options.verify_checksum,
                )
                &&& final(output)@ == old(output)@
                &&& e matches Error::DecompressionFailed(m) && m@ == msg_invalid_data()
            },
        },
{
    let n = compressed.len();
    if n == 0 {
        return Ok(0);
    }
    if n < 24 {
        return Err(Error::DecompressionFailed("invalid data or buffer too small"));
    }
    let (_, has, sum) = match read_footer(compressed) {
        None => {
            return Err(Error::DecompressionFailed("invalid data or buffer too small"));
        },
        Some(t) => t,
    };
    let v = match decode_container(compressed, output.len()) {
        Err(_) => {
            return Err(Error::DecompressionFailed("invalid data or buffer too small"));
        },
        Ok(v) => v,
    };
    if options.verify_checksum && has {
        let a = adler32(v.as_slice());
        if a != sum {
            return Err(Error::DecompressionFailed("invalid data or buffer too small"));
        }
    }
    let k = v.len();
    let mut j: usize = 0;
    while j < k
        invariant
            j <= k,
            k == v@.len(),
            k <= output@.len(),
            output@.len() == old(output)@.len(),
            forall|t: int| 0 <= t < j ==> output@[t] == v@[t],
            forall|t: int| j <= t < output@.len() ==> output@[t] == old(output)@[t],
        decreases k - j,
    {
        let b = v[j];
        output.set(j, b);
        j = j + 1;
    }
    assert(output@.subrange(0, k as int) =~= v@);
    assert(output@.skip(k as int) =~= old(output)@.skip(k as int));
    Ok(k)
}

/// Returns the library version as a tuple (major, minor, patch).
pub fn version() -> (r: (u32, u32, u32))
    ensures
        r == (VERSION_MAJOR, VERSION_MINOR, VERSION_PATCH),
{
    (VERSION_MAJOR, VERSION_MINOR, VERSION_PATCH)
}

/// Returns the library version as a string.
pub fn version_string() -> (r: String)
    ensures
        r@ == "1.0.0"@,
{
    String::from_str("1.0.0")
}

/// Round trip: any output of compression decompresses back to exactly
/// the bytes that were compressed, whatever the level, whether or not a
/// checksum was recorded, and whether or not verification is requested;
/// and the size query on it reads exactly the original length.
pub proof fn lemma_round_trip(s: Seq<u8>, x: Seq<u8>, checksum_on: bool, verify: bool)
    requires
        compressed_for(s, x, checksum_on),
        x.len() <= usize::MAX,
    ensures
        size_query(s) == Some(x.len() as int),
        decompress_ok(s, verify),
        decompressed_value(s) == x,
{
    let f = s.skip(s.len() - 24);
    assert(f.len() == 24);
}

/// Failure on garbage: bytes that do not end in a readable footer never
/// decompress successfully, whatever the verification setting.
pub proof fn lemma_garbage_rejected(s: Seq<u8>, verify: bool)
    requires
        s.len() > 0,
        size_query(s) is None,
    ensures
        !decompress_ok(s, verify),
{
}

} // verus!
