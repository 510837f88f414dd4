//! The fixed-size footer that closes every compressed container.
//!
//! The footer records the original (uncompressed) size, whether a payload
//! checksum is present, and the checksum itself, and carries its own
//! integrity check over the preceding footer bytes. Its size is fixed, so
//! the original size can be read from the tail of compressed data without
//! decompressing anything.

use vstd::prelude::*;

use crate::bytes::le32_bytes;
use crate::bytes::le32_value;
use crate::bytes::le64_bytes;
use crate::bytes::le64_value;
use crate::bytes::lemma_le32_roundtrip;
use crate::bytes::lemma_le64_roundtrip;
use crate::bytes::push_u32_le;
use crate::bytes::push_u64_le;
use crate::bytes::read_u32_le;
use crate::bytes::read_u64_le;
use crate::checksum::adler32;
use crate::checksum::adler32_spec;
use crate::checksum::lemma_adler_bounds;

verus! {

/// The footer's length in bytes.
pub const FOOTER_LEN: usize = 24;

/// The container format version this crate writes and accepts.
pub const FORMAT_VERSION: u8 = 1;

/// The magic bytes opening the footer.
pub open spec fn footer_magic() -> Seq<u8> {
    seq![0x5Au8, 0x58u8, 0x43u8, 0x46u8]
}

/// The first 20 footer bytes: magic, version, checksum flag, two reserved
/// zero bytes, the original size, and the payload checksum.
pub open spec fn footer_head(orig: int, checksum_on: bool, sum: int) -> Seq<u8> {
    footer_magic().add(
        seq![
            FORMAT_VERSION,
            if checksum_on {
                1u8
            } else {
                0u8
            },
            0u8,
            0u8,
        ],
    ).add(le64_bytes(orig)).add(le32_bytes(sum))
}

/// The whole footer: the head followed by the head's own integrity check.
pub open spec fn footer_bytes(orig: int, checksum_on: bool, sum: int) -> Seq<u8> {
    footer_head(orig, checksum_on, sum).add(
        le32_bytes(adler32_spec(footer_head(orig, checksum_on, sum))),
    )
}

/// Whether 24 bytes are a well-formed footer: the magic, the format
/// version, and the footer's own integrity check all in place.
pub open spec fn footer_well_formed(f: Seq<u8>) -> bool {
    &&& f.len() == FOOTER_LEN
    &&& f.subrange(0, 4) == footer_magic()
    &&& f[4] == FORMAT_VERSION
    &&& le32_value(f.subrange(20, 24)) == adler32_spec(f.subrange(0, 20))
}

/// The original size a footer records.
pub open spec fn footer_orig(f: Seq<u8>) -> int {
    le64_value(f.subrange(8, 16))
}

/// Whether a footer records a payload checksum.
pub open spec fn footer_has_checksum(f: Seq<u8>) -> bool {
    f[5] != 0
}

/// The payload checksum a footer records.
pub open spec fn footer_sum(f: Seq<u8>) -> int {
    le32_value(f.subrange(16, 20))
}

/// An Adler-32 value fits in 32 bits.
pub proof fn lemma_adler32_fits(s: Seq<u8>)
    ensures
        0 <= adler32_spec(s) < 0x1_0000_0000,
{
    lemma_adler_bounds(1, 0, s);
}

/// The footer the encoder writes is well formed and records exactly what
/// it was given.
pub proof fn lemma_footer_bytes(orig: int, checksum_on: bool, sum: int)
    requires
        0 <= orig < 0x1_0000_0000_0000_0000,
        0 <= sum < 0x1_0000_0000,
    ensures
        footer_bytes(orig, checksum_on, sum).len() == FOOTER_LEN,
        footer_well_formed(footer_bytes(orig, checksum_on, sum)),
        footer_orig(footer_bytes(orig, checksum_on, sum)) == orig,
        footer_has_checksum(footer_bytes(orig, checksum_on, sum)) == checksum_on,
        footer_sum(footer_bytes(orig, checksum_on, sum)) == sum,
{
    let head = footer_head(orig, checksum_on, sum);
    let f = footer_bytes(orig, checksum_on, sum);
    lemma_adler32_fits(head);
    lemma_le32_roundtrip(adler32_spec(head));
    lemma_le32_roundtrip(sum);
    lemma_le64_roundtrip(orig);
    assert(head.len() == 20);
    assert(f.len() == 24);
    assert(f.subrange(0, 20) =~= head);
    assert(f.subrange(20, 24) =~= le32_bytes(adler32_spec(head)));
    assert(f.subrange(0, 4) =~= footer_magic());
    assert(f[4] == FORMAT_VERSION);
    assert(f.subrange(8, 16) =~= le64_bytes(orig));
    assert(f.subrange(16, 20) =~= le32_bytes(sum));
    assert(f[5] == (if checksum_on {
        1u8
    } else {
        0u8
    }));
}

/// Appends the footer for the given original size and checksum to `out`.
pub fn append_footer(out: &mut Vec<u8>, orig: u64, checksum_on: bool, sum: u32)
    ensures
        final(out)@ =~= old(out)@.add(footer_bytes(orig as int, checksum_on, sum as int)),
{
    let mut f: Vec<u8> = Vec::new();
    f.push(0x5A);
    f.push(0x58);
    f.push(0x43);
    f.push(0x46);
    f.push(FORMAT_VERSION);
    f.push(if checksum_on {
        1
    } else {
        0
    });
    f.push(0);
    f.push(0);
    push_u64_le(&mut f, orig);
    push_u32_le(&mut f, sum);
    assert(f@ =~= footer_head(orig as int, checksum_on, sum as int));
    let fc: u32 = adler32(f.as_slice());
    push_u32_le(&mut f, fc);
    assert(f@ =~= footer_bytes(orig as int, checksum_on, sum as int));
    out.extend_from_slice(f.as_slice());
}

/// Reads and validates the footer at the tail of `s`: the recorded
/// original size, whether a checksum is present, and the checksum value.
pub fn read_footer(s: &[u8]) -> (r: Option<(u64, bool, u32)>)
    requires
        s@.len() >= 24,
    ensures
        ({
            let tail = s@.skip(s@.len() - 24);
            match r {
                Some(parts) => footer_well_formed(tail) && parts.0 as int == footer_orig(tail)
                    && parts.1 == footer_has_checksum(tail) && parts.2 as int == footer_sum(tail),
                None => !footer_well_formed(tail),
            }
        }),
{
    let n: usize = s.len();
    let base: usize = n - 24;
    let ghost tail = s@.skip(s@.len() - 24);
    assert(tail.len() == 24);
    assert(forall|k: int| 0 <= k < 24 ==> tail[k] == s@[base as int + k]);
    if !(s[base] == 0x5A && s[base + 1] == 0x58 && s[base + 2] == 0x43 && s[base + 3] == 0x46) {
        proof {
            if footer_well_formed(tail) {
                assert(tail[0] == footer_magic()[0]);
                assert(tail[1] == footer_magic()[1]);
                assert(tail[2] == footer_magic()[2]);
                assert(tail[3] == footer_magic()[3]);
            }
        }
        return None;
    }
    if s[base + 4] != FORMAT_VERSION {
        return None;
    }
    let head_slice = vstd::slice::slice_subrange(s, base, base + 20);
    let computed: u32 = adler32(head_slice);
    let stored: u32 = read_u32_le(s, base + 20);
    proof {
        assert(head_slice@ =~= tail.subrange(0, 20));
        assert(s@.subrange(base as int + 20, base as int + 24) =~= tail.subrange(20, 24));
    }
    if computed != stored {
        return None;
    }
    let orig: u64 = read_u64_le(s, base + 8);
    let has: bool = s[base + 5] != 0;
    let sum: u32 = read_u32_le(s, base + 16);
    proof {
        assert(s@.subrange(base as int + 8, base as int + 16) =~= tail.subrange(8, 16));
        assert(s@.subrange(base as int + 16, base as int + 20) =~= tail.subrange(16, 20));
        assert(tail.subrange(0, 4) =~= footer_magic());
    }
    Some((orig, has, sum))
}

} // verus!
