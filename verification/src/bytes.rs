//! Little-endian byte packing of the fixed-width integers the container
//! format uses, with round-trip lemmas.

use vstd::prelude::*;

verus! {

/// The four little-endian bytes of a 32-bit value.
pub open spec fn le32_bytes(x: int) -> Seq<u8> {
    seq![
        (x % 256) as u8,
        ((x / 256) % 256) as u8,
        ((x / 65536) % 256) as u8,
        ((x / 16777216) % 256) as u8,
    ]
}

/// The 32-bit value four little-endian bytes stand for.
pub open spec fn le32_value(s: Seq<u8>) -> int
    recommends
        s.len() == 4,
{
    s[0] + 256 * s[1] + 65536 * s[2] + 16777216 * s[3]
}

/// The eight little-endian bytes of a 64-bit value.
pub open spec fn le64_bytes(x: int) -> Seq<u8> {
    le32_bytes(x % 0x1_0000_0000).add(le32_bytes(x / 0x1_0000_0000))
}

/// The 64-bit value eight little-endian bytes stand for.
pub open spec fn le64_value(s: Seq<u8>) -> int
    recommends
        s.len() == 8,
{
    le32_value(s.subrange(0, 4)) + 0x1_0000_0000 * le32_value(s.subrange(4, 8))
}

/// Reading back the four little-endian bytes of a 32-bit value gives the
/// value itself.
pub proof fn lemma_le32_roundtrip(x: int)
    requires
        0 <= x < 0x1_0000_0000,
    ensures
        le32_value(le32_bytes(x)) == x,
{
    assert(x == x % 256 + 256 * ((x / 256) % 256) + 65536 * ((x / 65536) % 256) + 16777216 * ((x
        / 16777216) % 256)) by (nonlinear_arith)
        requires
            0 <= x < 0x1_0000_0000,
    ;
}

/// Reading back the eight little-endian bytes of a 64-bit value gives the
/// value itself.
pub proof fn lemma_le64_roundtrip(x: int)
    requires
        0 <= x < 0x1_0000_0000_0000_0000,
    ensures
        le64_value(le64_bytes(x)) == x,
{
    let d = 0x1_0000_0000;
    let lo = x % d;
    let hi = x / d;
    vstd::arithmetic::div_mod::lemma_fundamental_div_mod(x, d);
    vstd::arithmetic::div_mod::lemma_div_pos_is_pos(x, d);
    vstd::arithmetic::div_mod::lemma_multiply_divide_lt(x, d, d);
    lemma_le32_roundtrip(lo);
    lemma_le32_roundtrip(hi);
    assert(le64_bytes(x).subrange(0, 4) =~= le32_bytes(lo));
    assert(le64_bytes(x).subrange(4, 8) =~= le32_bytes(hi));
}

/// A 24-bit value splits into its three little-endian bytes.
pub proof fn lemma_le24_split(d: int)
    requires
        0 <= d < 0x100_0000,
    ensures
        d == d % 256 + 256 * ((d / 256) % 256) + 65536 * (d / 65536),
        0 <= d / 65536 < 256,
        0 <= d % 256 < 256,
        0 <= (d / 256) % 256 < 256,
{
    vstd::arithmetic::div_mod::lemma_fundamental_div_mod(d, 256);
    vstd::arithmetic::div_mod::lemma_fundamental_div_mod(d / 256, 256);
    vstd::arithmetic::div_mod::lemma_div_denominator(d, 256, 256);
    vstd::arithmetic::div_mod::lemma_div_pos_is_pos(d, 65536);
    vstd::arithmetic::div_mod::lemma_multiply_divide_lt(d, 65536, 256);
}

/// Appends the four little-endian bytes of `x` to `out`.
pub fn push_u32_le(out: &mut Vec<u8>, x: u32)
    ensures
        final(out)@ =~= old(out)@.add(le32_bytes(x as int)),
{
    out.push((x % 256) as u8);
    out.push(((x / 256) % 256) as u8);
    out.push(((x / 65536) % 256) as u8,);
    out.push(((x / 16777216) % 256) as u8);
}

/// Appends the eight little-endian bytes of `x` to `out`.
pub fn push_u64_le(out: &mut Vec<u8>, x: u64)
    ensures
        final(out)@ =~= old(out)@.add(le64_bytes(x as int)),
{
    let lo: u32 = (x % 0x1_0000_0000) as u32;
    let hi: u32 = (x / 0x1_0000_0000) as u32;
    push_u32_le(out, lo);
    push_u32_le(out, hi);
    assert(out@ =~= old(out)@.add(le64_bytes(x as int)));
}

/// Reads the 32-bit value whose little-endian bytes stand at `pos`.
pub fn read_u32_le(s: &[u8], pos: usize) -> (r: u32)
    requires
        pos + 4 <= s@.len(),
    ensures
        r as int == le32_value(s@.subrange(pos as int, pos as int + 4)),
{
    let b0: u32 = s[pos] as u32;
    let b1: u32 = s[pos + 1] as u32;
    let b2: u32 = s[pos + 2] as u32;
    let b3: u32 = s[pos + 3] as u32;
    b0 + 256 * b1 + 65536 * b2 + 16777216 * b3
}

/// Reads the 64-bit value whose little-endian bytes stand at `pos`.
pub fn read_u64_le(s: &[u8], pos: usize) -> (r: u64)
    requires
        pos + 8 <= s@.len(),
    ensures
        r as int == le64_value(s@.subrange(pos as int, pos as int + 8)),
{
    let n: usize = s.len();
    let lo: u32 = read_u32_le(s, pos);
    let hi: u32 = read_u32_le(s, pos + 4);
    let ghost whole = s@.subrange(pos as int, pos as int + 8);
    assert(whole.subrange(0, 4) =~= s@.subrange(pos as int, pos as int + 4));
    assert(whole.subrange(4, 8) =~= s@.subrange(pos as int + 4, pos as int + 8));
    lo as u64 + 0x1_0000_0000 * (hi as u64)
}

} // verus!
