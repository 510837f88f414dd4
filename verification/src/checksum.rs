//! The payload integrity checksum: Adler-32, computed either in one pass
//! or incrementally while streaming.

use vstd::prelude::*;

verus! {

/// The Adler-32 modulus.
pub open spec fn adler_mod() -> int {
    65521
}

/// The Adler-32 state after folding `s` into the state `(a, b)`.
pub open spec fn adler_pair_from(a: int, b: int, s: Seq<u8>) -> (int, int)
    decreases s.len(),
{
    if s.len() == 0 {
        (a, b)
    } else {
        let (p, q) = adler_pair_from(a, b, s.drop_last());
        let p2 = (p + s.last()) % adler_mod();
        (p2, (q + p2) % adler_mod())
    }
}

/// The Adler-32 state of a byte sequence, from the standard initial state.
pub open spec fn adler_pair(s: Seq<u8>) -> (int, int) {
    adler_pair_from(1, 0, s)
}

/// The Adler-32 checksum of a byte sequence.
pub open spec fn adler32_spec(s: Seq<u8>) -> int {
    adler_pair(s).1 * 65536 + adler_pair(s).0
}

/// Packs an Adler-32 state into the 32-bit checksum value.
pub open spec fn adler_value(p: (int, int)) -> int {
    p.1 * 65536 + p.0
}

/// Folding a concatenation into a state folds the parts one after the other.
pub proof fn lemma_adler_concat(a: int, b: int, s: Seq<u8>, t: Seq<u8>)
    ensures
        adler_pair_from(a, b, s.add(t)) == adler_pair_from(
            adler_pair_from(a, b, s).0,
            adler_pair_from(a, b, s).1,
            t,
        ),
    decreases t.len(),
{
    if t.len() == 0 {
        assert(s.add(t) =~= s);
    } else {
        lemma_adler_concat(a, b, s, t.drop_last());
        assert(s.add(t).drop_last() =~= s.add(t.drop_last()));
        assert(s.add(t).last() == t.last());
    }
}

/// The components of an Adler-32 state stay below the modulus.
pub proof fn lemma_adler_bounds(a: int, b: int, s: Seq<u8>)
    requires
        0 <= a < adler_mod(),
        0 <= b < adler_mod(),
    ensures
        0 <= adler_pair_from(a, b, s).0 < adler_mod(),
        0 <= adler_pair_from(a, b, s).1 < adler_mod(),
    decreases s.len(),
{
    if s.len() > 0 {
        lemma_adler_bounds(a, b, s.drop_last());
    }
}

/// Folds a chunk of bytes into an Adler-32 state.
pub fn adler_extend(s1: u32, s2: u32, chunk: &[u8]) -> (r: (u32, u32))
    requires
        s1 < 65521,
        s2 < 65521,
    ensures
        (r.0 as int, r.1 as int) == adler_pair_from(s1 as int, s2 as int, chunk@),
        r.0 < 65521,
        r.1 < 65521,
{
    let mut a: u32 = s1;
    let mut b: u32 = s2;
    let mut i: usize = 0;
    while i < chunk.len()
        invariant
            i <= chunk@.len(),
            a < 65521,
            b < 65521,
            (a as int, b as int) == adler_pair_from(s1 as int, s2 as int, chunk@.subrange(0, i as int)),
        decreases chunk@.len() - i,
    {
        let ghost prefix = chunk@.subrange(0, i as int);
        let ghost prefix2 = chunk@.subrange(0, i as int + 1);
        a = (a + chunk[i] as u32) % 65521;
        b = (b + a) % 65521;
        proof {
            assert(prefix2.drop_last() =~= prefix);
            assert(prefix2.last() == chunk@[i as int]);
        }
        i = i + 1;
    }
    assert(chunk@.subrange(0, chunk@.len() as int) =~= chunk@);
    (a, b)
}

/// Computes the Adler-32 checksum of a byte slice.
pub fn adler32(data: &[u8]) -> (r: u32)
    ensures
        r as int == adler32_spec(data@),
{
    let (a, b) = adler_extend(1, 0, data);
    b * 65536 + a
}

} // verus!
