//! The token stream inside a compressed block.
//!
//! A block payload is a sequence of tokens. A token whose control byte is
//! below 128 carries a run of 1 to 128 literal bytes; a token whose control
//! byte has the high bit set repeats `(control - 128) + 4` bytes already
//! decoded, starting at a back distance given by the following three
//! little-endian bytes. The decoder's meaning, `decode_tokens`, is the
//! ground truth the compressor is proved against.

use vstd::prelude::*;

use crate::bytes::lemma_le24_split;
use crate::errors::EngineError;

verus! {

/// The shortest back-reference a match token can carry.
pub const MIN_MATCH: usize = 4;

/// The longest back-reference a match token can carry.
pub const MAX_MATCH: usize = 131;

/// The longest run of literals a literal token can carry.
pub const MAX_LITERAL_RUN: usize = 128;

/// Extends decoded output by `len` bytes, each copied from `dist` bytes
/// behind the end of the output so far. A distance smaller than `len`
/// repeats the bytes the extension itself appends.
pub open spec fn match_extend(acc: Seq<u8>, dist: int, len: int) -> Seq<u8>
    recommends
        1 <= dist <= acc.len(),
    decreases len,
{
    if len <= 0 {
        acc
    } else {
        match_extend(acc.push(acc[acc.len() - dist]), dist, len - 1)
    }
}

/// What a token stream `p` decodes to, appended to already-decoded
/// output `acc`.
pub open spec fn decode_tokens(p: Seq<u8>, acc: Seq<u8>) -> Result<Seq<u8>, EngineError>
    decreases p.len(),
{
    if p.len() == 0 {
        Ok(acc)
    } else {
        let c = p[0] as int;
        if c < 128 {
            let n = c + 1;
            if p.len() < 1 + n {
                Err(EngineError::CorruptData)
            } else {
                decode_tokens(p.skip(1 + n), acc.add(p.subrange(1, 1 + n)))
            }
        } else {
            if p.len() < 4 {
                Err(EngineError::CorruptData)
            } else {
                let len = c - 128 + 4;
                let dist = p[1] + 256 * p[2] + 65536 * p[3];
                if dist == 0 || dist > acc.len() {
                    Err(EngineError::BadOffset)
                } else {
                    decode_tokens(p.skip(4), match_extend(acc, dist, len))
                }
            }
        }
    }
}

/// A match extension adds exactly `len` bytes.
pub proof fn lemma_match_extend_len(acc: Seq<u8>, dist: int, len: int)
    requires
        len >= 0,
    ensures
        match_extend(acc, dist, len).len() == acc.len() + len,
    decreases len,
{
    if len > 0 {
        lemma_match_extend_len(acc.push(acc[acc.len() - dist]), dist, len - 1);
    }
}

/// A match extension leaves the bytes already decoded in place.
pub proof fn lemma_match_extend_prefix(acc: Seq<u8>, dist: int, len: int)
    requires
        len >= 0,
    ensures
        match_extend(acc, dist, len).subrange(0, acc.len() as int) =~= acc,
    decreases len,
{
    if len > 0 {
        let acc2 = acc.push(acc[acc.len() - dist]);
        lemma_match_extend_prefix(acc2, dist, len - 1);
        lemma_match_extend_len(acc2, dist, len - 1);
        assert(acc2.subrange(0, acc.len() as int) =~= acc);
        assert(match_extend(acc, dist, len).subrange(0, acc.len() as int) =~= acc2.subrange(
            0,
            acc.len() as int,
        ));
    }
}

/// Decoding only ever appends: whatever a token stream decodes to starts
/// with the output already decoded.
pub proof fn lemma_decode_extends(p: Seq<u8>, acc: Seq<u8>)
    requires
        decode_tokens(p, acc) is Ok,
    ensures
        decode_tokens(p, acc)->Ok_0.len() >= acc.len(),
        decode_tokens(p, acc)->Ok_0.subrange(0, acc.len() as int) =~= acc,
    decreases p.len(),
{
    if p.len() == 0 {
        assert(acc.subrange(0, acc.len() as int) =~= acc);
    } else {
        let c = p[0] as int;
        if c < 128 {
            let n = c + 1;
            let acc2 = acc.add(p.subrange(1, 1 + n));
            lemma_decode_extends(p.skip(1 + n), acc2);
            let r = decode_tokens(p, acc)->Ok_0;
            assert(r.subrange(0, acc.len() as int) =~= r.subrange(0, acc2.len() as int).subrange(
                0,
                acc.len() as int,
            ));
            assert(acc2.subrange(0, acc.len() as int) =~= acc);
        } else {
            let len = c - 128 + 4;
            let dist = p[1] + 256 * p[2] + 65536 * p[3];
            let acc2 = match_extend(acc, dist, len);
            lemma_match_extend_len(acc, dist, len);
            lemma_match_extend_prefix(acc, dist, len);
            lemma_decode_extends(p.skip(4), acc2);
            let r = decode_tokens(p, acc)->Ok_0;
            assert(r.subrange(0, acc.len() as int) =~= r.subrange(0, acc2.len() as int).subrange(
                0,
                acc.len() as int,
            ));
        }
    }
}

/// Decoding a concatenation decodes the first part, then the second from
/// where the first left off.
pub proof fn lemma_decode_append(p1: Seq<u8>, p2: Seq<u8>, acc: Seq<u8>)
    requires
        decode_tokens(p1, acc) is Ok,
    ensures
        decode_tokens(p1.add(p2), acc) == decode_tokens(p2, decode_tokens(p1, acc)->Ok_0),
    decreases p1.len(),
{
    let whole = p1.add(p2);
    if p1.len() == 0 {
        assert(whole =~= p2);
    } else {
        let c = p1[0] as int;
        assert(whole[0] == p1[0]);
        if c < 128 {
            let n = c + 1;
            let acc2 = acc.add(p1.subrange(1, 1 + n));
            assert(whole.len() >= 1 + n);
            assert(whole.subrange(1, 1 + n) =~= p1.subrange(1, 1 + n));
            assert(whole.skip(1 + n) =~= p1.skip(1 + n).add(p2));
            lemma_decode_append(p1.skip(1 + n), p2, acc2);
        } else {
            let len = c - 128 + 4;
            assert(whole.len() >= 4);
            assert(whole[1] == p1[1] && whole[2] == p1[2] && whole[3] == p1[3]);
            let dist = p1[1] + 256 * p1[2] + 65536 * p1[3];
            let acc2 = match_extend(acc, dist, len);
            assert(whole.skip(4) =~= p1.skip(4).add(p2));
            lemma_decode_append(p1.skip(4), p2, acc2);
        }
    }
}

/// A match extension over a region whose bytes repeat the bytes `dist`
/// before it reproduces that region of the original data.
pub proof fn lemma_match_extend_copies(x: Seq<u8>, i: int, dist: int, len: int)
    requires
        1 <= dist <= i,
        len >= 0,
        i + len <= x.len(),
        forall|k: int| 0 <= k < len ==> #[trigger] x[i + k] == x[i - dist + k],
    ensures
        match_extend(x.subrange(0, i), dist, len) =~= x.subrange(0, i + len),
    decreases len,
{
    if len > 0 {
        let acc = x.subrange(0, i);
        assert(acc[i - dist] == x[i - dist]);
        assert(x[i - dist] == x[i]) by {
            assert(x[i + 0] == x[i - dist + 0]);
        }
        assert(acc.push(acc[acc.len() - dist]) =~= x.subrange(0, i + 1));
        assert forall|k: int| 0 <= k < len - 1 implies #[trigger] x[(i + 1) + k] == x[(i + 1) - dist
            + k] by {
            assert(x[i + (k + 1)] == x[i - dist + (k + 1)]);
        }
        lemma_match_extend_copies(x, i + 1, dist, len - 1);
    }
}

/// Decodes a block payload into the bytes it stands for, refusing to grow
/// the output beyond `max_out` bytes.
pub fn decode_payload(p: &[u8], max_out: usize) -> (r: Result<Vec<u8>, EngineError>)
    ensures
        match r {
            Ok(v) => decode_tokens(p@, Seq::empty()) == Result::<Seq<u8>, EngineError>::Ok(v@)
                && v@.len() <= max_out,
            Err(e) => match decode_tokens(p@, Seq::empty()) {
                Ok(x) => x.len() > max_out && e == EngineError::DstTooSmall,
                Err(k) => e == k || e == EngineError::DstTooSmall,
            },
        },
{
    let n: usize = p.len();
    let mut out: Vec<u8> = Vec::new();
    let mut pos: usize = 0;
    assert(p@.skip(0) =~= p@);
    while pos < n
        invariant
            pos <= n,
            n == p@.len(),
            out@.len() <= max_out,
            decode_tokens(p@, Seq::empty()) == decode_tokens(p@.skip(pos as int), out@),
        decreases n - pos,
    {
        let ghost suffix = p@.skip(pos as int);
        let c = p[pos];
        if c < 128 {
            let litn: usize = c as usize + 1;
            if n - pos < 1 + litn {
                return Err(EngineError::CorruptData);
            }
            let ghost acc2 = out@.add(p@.subrange(pos as int + 1, pos as int + 1 + litn as int));
            proof {
                assert(suffix.subrange(1, 1 + litn as int) =~= p@.subrange(
                    pos as int + 1,
                    pos as int + 1 + litn as int,
                ));
                assert(suffix.skip(1 + litn as int) =~= p@.skip(pos as int + 1 + litn as int));
            }
            if max_out - out.len() < litn {
                proof {
                    if decode_tokens(p@, Seq::empty()) is Ok {
                        lemma_decode_extends(p@.skip(pos as int + 1 + litn as int), acc2);
                    }
                }
                return Err(EngineError::DstTooSmall);
            }
            let ghost before = out@;
            let mut j: usize = 0;
            while j < litn
                invariant
                    j <= litn,
                    pos + 1 + litn <= n,
                    n == p@.len(),
                    out@ =~= before.add(p@.subrange(pos as int + 1, pos as int + 1 + j as int)),
                decreases litn - j,
            {
                let b = p[pos + 1 + j];
                out.push(b);
                proof {
                    assert(before.add(p@.subrange(pos as int + 1, pos as int + 1 + j as int)).push(
                        p@[pos as int + 1 + j as int],
                    ) =~= before.add(
                        p@.subrange(pos as int + 1, pos as int + 1 + (j + 1) as int),
                    ));
                }
                j = j + 1;
            }
            assert(out@ =~= acc2);
            assert(decode_tokens(suffix, before) == decode_tokens(
                suffix.skip(1 + litn as int),
                before.add(suffix.subrange(1, 1 + litn as int)),
            ));
            pos = pos + 1 + litn;
        } else {
            if n - pos < 4 {
                return Err(EngineError::CorruptData);
            }
            let d0 = p[pos + 1] as u32;
            let d1 = p[pos + 2] as u32;
            let d2 = p[pos + 3] as u32;
            let dist32: u32 = d0 + 256 * d1 + 65536 * d2;
            let dist: usize = dist32 as usize;
            let mlen: usize = (c - 128) as usize + 4;
            proof {
                assert(suffix[1] == p@[pos as int + 1]);
                assert(suffix[2] == p@[pos as int + 2]);
                assert(suffix[3] == p@[pos as int + 3]);
                assert(suffix.skip(4) =~= p@.skip(pos as int + 4));
            }
            if dist == 0 || dist > out.len() {
                return Err(EngineError::BadOffset);
            }
            let ghost acc2 = match_extend(out@, dist as int, mlen as int);
            proof {
                lemma_match_extend_len(out@, dist as int, mlen as int);
            }
            if max_out - out.len() < mlen {
                proof {
                    if decode_tokens(p@, Seq::empty()) is Ok {
                        lemma_decode_extends(p@.skip(pos as int + 4), acc2);
                    }
                }
                return Err(EngineError::DstTooSmall);
            }
            let ghost before = out@;
            let mut k: usize = 0;
            while k < mlen
                invariant
                    k <= mlen,
                    1 <= dist <= before.len(),
                    out@.len() == before.len() + k,
                    before.len() + mlen <= max_out,
                    out@.len() <= max_out,
                    match_extend(before, dist as int, mlen as int) == match_extend(
                        out@,
                        dist as int,
                        (mlen - k) as int,
                    ),
                decreases mlen - k,
            {
                let b = out[out.len() - dist];
                out.push(b);
                k = k + 1;
            }
            assert(out@ =~= acc2) by {
                assert(match_extend(out@, dist as int, 0) == out@);
            }
            assert(decode_tokens(suffix, before) == decode_tokens(
                suffix.skip(4),
                match_extend(before, dist as int, mlen as int),
            ));
            pos = pos + 4;
        }
    }
    assert(p@.skip(n as int) =~= Seq::<u8>::empty());
    Ok(out)
}

/// A multiplicative hash of the eight bytes at `i`, used only to pick
/// match candidates; every candidate is re-checked byte by byte.
fn hash8(data: &[u8], i: usize) -> (h: usize)
    requires
        i + 8 <= data@.len(),
    ensures
        h < 65536,
{
    let v: u64 = data[i] as u64 + 0x100 * (data[i + 1] as u64) + 0x1_0000 * (data[i + 2] as u64)
        + 0x100_0000 * (data[i + 3] as u64) + 0x1_0000_0000 * (data[i + 4] as u64)
        + 0x100_0000_0000 * (data[i + 5] as u64) + 0x1_0000_0000_0000 * (data[i + 6] as u64)
        + 0x100_0000_0000_0000 * (data[i + 7] as u64);
    let m: u128 = (v as u128) * 0x9E37_79B9_7F4A_7C15;
    ((m / 0x1_0000_0000_0000_0000_0000) % 65536) as usize
}

/// Emits the pending literals `data[from..to]` as literal tokens.
fn flush_literals(data: &[u8], from: usize, to: usize, out: &mut Vec<u8>)
    requires
        from <= to <= data@.len(),
        decode_tokens(old(out)@, Seq::empty()) == Result::<Seq<u8>, EngineError>::Ok(
            data@.subrange(0, from as int),
        ),
    ensures
        decode_tokens(final(out)@, Seq::empty()) == Result::<Seq<u8>, EngineError>::Ok(
            data@.subrange(0, to as int),
        ),
{
    let dlen: usize = data.len();
    let mut start: usize = from;
    while start < to
        invariant
            dlen == data@.len(),
            from <= start <= to <= data@.len(),
            decode_tokens(out@, Seq::empty()) == Result::<Seq<u8>, EngineError>::Ok(
                data@.subrange(0, start as int),
            ),
        decreases to - start,
    {
        let run: usize = if to - start < MAX_LITERAL_RUN {
            to - start
        } else {
            MAX_LITERAL_RUN
        };
        let ghost before = out@;
        let ghost lits = data@.subrange(start as int, start as int + run as int);
        let ghost token = seq![(run - 1) as u8].add(lits);
        out.push((run - 1) as u8);
        let mut j: usize = 0;
        while j < run
            invariant
                j <= run,
                dlen == data@.len(),
                start + run <= dlen,
                out@ =~= before.push((run - 1) as u8).add(
                    data@.subrange(start as int, start as int + j as int),
                ),
            decreases run - j,
        {
            let b = data[start + j];
            out.push(b);
            proof {
                assert(before.push((run - 1) as u8).add(
                    data@.subrange(start as int, start as int + j as int),
                ).push(data@[start as int + j as int]) =~= before.push((run - 1) as u8).add(
                    data@.subrange(start as int, start as int + (j + 1) as int),
                ));
            }
            j = j + 1;
        }
        proof {
            assert(out@ =~= before.add(token));
            lemma_decode_append(before, token, Seq::empty());
            let prefix = data@.subrange(0, start as int);
            assert(token[0] as int == run - 1);
            assert(token.len() == 1 + run);
            assert(token.subrange(1, 1 + run as int) =~= lits);
            assert(token.skip(1 + run as int) =~= Seq::<u8>::empty());
            assert(decode_tokens(token.skip(1 + run as int), prefix.add(
                token.subrange(1, 1 + run as int),
            )) == Result::<Seq<u8>, EngineError>::Ok(prefix.add(lits)));
            assert(decode_tokens(token, prefix) == Result::<Seq<u8>, EngineError>::Ok(
                prefix.add(lits),
            ));
            assert(prefix.add(lits) =~= data@.subrange(0, start as int + run as int));
        }
        start = start + run;
    }
}

/// Compresses one block of input into a token stream. The result is proved
/// to decode back to the input itself.
pub fn encode_payload(data: &[u8]) -> (r: Vec<u8>)
    requires
        data@.len() <= 0x10_0000,
    ensures
        decode_tokens(r@, Seq::empty()) == Result::<Seq<u8>, EngineError>::Ok(data@),
{
    let n: usize = data.len();
    let mut out: Vec<u8> = Vec::new();
    let mut table: Vec<u32> = Vec::new();
    let mut t: usize = 0;
    while t < 65536
        invariant
            table@.len() == t,
            t <= 65536,
        decreases 65536 - t,
    {
        table.push(0);
        t = t + 1;
    }
    let mut i: usize = 0;
    let mut lit: usize = 0;
    proof {
        assert(out@ =~= Seq::<u8>::empty());
        assert(data@.subrange(0, 0) =~= Seq::<u8>::empty());
        assert(decode_tokens(Seq::<u8>::empty(), Seq::<u8>::empty())
            == Result::<Seq<u8>, EngineError>::Ok(Seq::<u8>::empty()));
    }
    while i < n
        invariant
            lit <= i,
            i <= n,
            n == data@.len(),
            n <= 0x10_0000,
            table@.len() == 65536,
            decode_tokens(out@, Seq::empty()) == Result::<Seq<u8>, EngineError>::Ok(
                data@.subrange(0, lit as int),
            ),
        decreases n - i,
    {
        let mut matched = false;
        if i + 8 <= n {
            let h = hash8(data, i);
            let cand = table[h];
            table.set(h, (i + 1) as u32);
            if cand >= 1 && (cand as usize) <= i {
                let c0: usize = cand as usize - 1;
                if data[c0] == data[i] && data[c0 + 1] == data[i + 1] && data[c0 + 2] == data[i + 2]
                    && data[c0 + 3] == data[i + 3] && data[c0 + 4] == data[i + 4] && data[c0 + 5]
                    == data[i + 5] && data[c0 + 6] == data[i + 6] && data[c0 + 7] == data[i + 7] {
                    proof {
                        assert(data@[c0 as int + 0] == data@[i as int + 0]);
                        assert(data@[c0 as int + 1] == data@[i as int + 1]);
                        assert(data@[c0 as int + 2] == data@[i as int + 2]);
                        assert(data@[c0 as int + 3] == data@[i as int + 3]);
                        assert(data@[c0 as int + 4] == data@[i as int + 4]);
                        assert(data@[c0 as int + 5] == data@[i as int + 5]);
                        assert(data@[c0 as int + 6] == data@[i as int + 6]);
                        assert(data@[c0 as int + 7] == data@[i as int + 7]);
                    }
                    let mut mlen: usize = 8;
                    while i + mlen < n && mlen < MAX_MATCH && data[c0 + mlen] == data[i + mlen]
                        invariant
                            8 <= mlen <= 131,
                            c0 < i,
                            i + 4 <= n,
                            i + mlen <= n,
                            n == data@.len(),
                            n <= 0x10_0000,
                            forall|k: int|
                                0 <= k < mlen ==> #[trigger] data@[i as int + k] == data@[c0 as int
                                    + k],
                        decreases 131 - mlen,
                    {
                        proof {
                            assert(data@[i as int + mlen as int] == data@[c0 as int + mlen as int]);
                        }
                        mlen = mlen + 1;
                    }
                    flush_literals(data, lit, i, &mut out);
                    let dist: usize = i - c0;
                    let ghost before = out@;
                    let ghost token = seq![
                        (128 + (mlen - 4)) as u8,
                        (dist % 256) as u8,
                        ((dist / 256) % 256) as u8,
                        (dist / 65536) as u8,
                    ];
                    out.push((128 + (mlen - MIN_MATCH)) as u8);
                    out.push((dist % 256) as u8);
                    out.push(((dist / 256) % 256) as u8);
                    out.push((dist / 65536) as u8);
                    proof {
                        let prefix = data@.subrange(0, i as int);
                        assert(out@ =~= before.add(token));
                        lemma_decode_append(before, token, Seq::empty());
                        lemma_le24_split(dist as int);
                        assert(token[0] as int == 128 + (mlen - 4));
                        assert(token[1] as int + 256 * token[2] + 65536 * token[3] == dist);
                        assert(token.skip(4) =~= Seq::<u8>::empty());
                        assert(1 <= dist <= prefix.len());
                        assert(decode_tokens(token.skip(4), match_extend(
                            prefix,
                            dist as int,
                            mlen as int,
                        )) == Result::<Seq<u8>, EngineError>::Ok(match_extend(
                            prefix,
                            dist as int,
                            mlen as int,
                        )));
                        assert(decode_tokens(token, prefix) == Result::<Seq<u8>, EngineError>::Ok(
                            match_extend(prefix, dist as int, mlen as int),
                        ));
                        assert forall|k: int| 0 <= k < mlen implies #[trigger] data@[i as int + k]
                            == data@[i as int - dist as int + k] by {
                            assert(data@[i as int + k] == data@[c0 as int + k]);
                        }
                        lemma_match_extend_copies(data@, i as int, dist as int, mlen as int);
                    }
                    i = i + mlen;
                    lit = i;
                    matched = true;
                }
            }
        }
        if !matched {
            i = i + 1;
        }
    }
    flush_literals(data, lit, n, &mut out);
    assert(data@.subrange(0, n as int) =~= data@);
    out
}

} // verus!
