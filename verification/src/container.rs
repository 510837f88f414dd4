//! The block container: compressed data is a sequence of blocks, an end
//! marker, and the footer.
//!
//! Each block holds up to [`BLOCK_LIMIT`] bytes of input, either raw or as
//! a token stream, behind a 9-byte header carrying its tag, payload length
//! and original length. Blocks are independent, so a stream can be encoded
//! and decoded block by block; output blocks keep the order of the input.

use vstd::prelude::*;

use crate::bytes::le32_bytes;
use crate::bytes::le32_value;
use crate::bytes::lemma_le32_roundtrip;
use crate::bytes::push_u32_le;
use crate::bytes::read_u32_le;
use crate::checksum::adler32;
use crate::checksum::adler32_spec;
use crate::errors::EngineError;
use crate::footer::append_footer;
use crate::footer::footer_bytes;
use crate::footer::footer_has_checksum;
use crate::footer::footer_orig;
use crate::footer::footer_sum;
use crate::footer::footer_well_formed;
use crate::footer::lemma_footer_bytes;
use crate::tokens::decode_tokens;
use crate::tokens::decode_payload;
use crate::tokens::encode_payload;

verus! {

/// The most input bytes one block covers.
pub const BLOCK_LIMIT: usize = 0x10_0000;

/// The length of a block header: tag, payload length, original length.
pub const BLOCK_HEADER_LEN: usize = 9;

/// The tag closing the block sequence.
pub const TAG_END: u8 = 0;

/// The tag of a block stored raw.
pub const TAG_RAW: u8 = 1;

/// The tag of a block stored as a token stream.
pub const TAG_TOKENS: u8 = 2;

/// What one block's payload decodes to under its tag.
pub open spec fn block_decode(tag: u8, payload: Seq<u8>) -> Result<Seq<u8>, EngineError> {
    if tag == TAG_RAW {
        Ok(payload)
    } else if tag == TAG_TOKENS {
        decode_tokens(payload, Seq::empty())
    } else {
        Err(EngineError::BadBlockType)
    }
}

/// What a block sequence decodes to, appended to `acc`: the decoded bytes
/// and whatever follows the end marker.
pub open spec fn blocks_dec(s: Seq<u8>, acc: Seq<u8>) -> Result<(Seq<u8>, Seq<u8>), EngineError>
    decreases s.len(),
{
    if s.len() == 0 {
        Err(EngineError::SrcTooSmall)
    } else if s[0] == TAG_END {
        Ok((acc, s.skip(1)))
    } else if s[0] == TAG_RAW || s[0] == TAG_TOKENS {
        if s.len() < 9 {
            Err(EngineError::SrcTooSmall)
        } else {
            let plen = le32_value(s.subrange(1, 5));
            let olen = le32_value(s.subrange(5, 9));
            if s.len() < 9 + plen {
                Err(EngineError::SrcTooSmall)
            } else {
                match block_decode(s[0], s.subrange(9, 9 + plen)) {
                    Ok(b) => if b.len() == olen {
                        blocks_dec(s.skip(9 + plen), acc.add(b))
                    } else {
                        Err(EngineError::CorruptData)
                    },
                    Err(e) => Err(e),
                }
            }
        }
    } else {
        Err(EngineError::BadBlockType)
    }
}

/// Whether `bytes` form one well-formed block that decodes to `chunk` and
/// whose payload is no longer than `chunk` itself.
pub open spec fn is_block_for(bytes: Seq<u8>, chunk: Seq<u8>) -> bool {
    exists|tag: u8, payload: Seq<u8>|
        {
            &&& (tag == TAG_RAW || tag == TAG_TOKENS)
            &&& #[trigger] block_decode(tag, payload) == Result::<Seq<u8>, EngineError>::Ok(chunk)
            &&& payload.len() <= chunk.len()
            &&& bytes == seq![tag].add(le32_bytes(payload.len() as int)).add(
                le32_bytes(chunk.len() as int),
            ).add(payload)
        }
}

/// Decoding a well-formed block followed by more bytes decodes the block
/// and goes on behind it.
pub proof fn lemma_block_step(bytes: Seq<u8>, chunk: Seq<u8>, tail: Seq<u8>, acc: Seq<u8>)
    requires
        is_block_for(bytes, chunk),
        chunk.len() < 0x1_0000_0000,
    ensures
        blocks_dec(bytes.add(tail), acc) == blocks_dec(tail, acc.add(chunk)),
{
    let (tag, payload) = choose|tag: u8, payload: Seq<u8>|
        {
            &&& (tag == TAG_RAW || tag == TAG_TOKENS)
            &&& #[trigger] block_decode(tag, payload) == Result::<Seq<u8>, EngineError>::Ok(chunk)
            &&& payload.len() <= chunk.len()
            &&& bytes == seq![tag].add(le32_bytes(payload.len() as int)).add(
                le32_bytes(chunk.len() as int),
            ).add(payload)
        };
    let whole = bytes.add(tail);
    let plen = payload.len() as int;
    let olen = chunk.len() as int;
    lemma_le32_roundtrip(plen);
    lemma_le32_roundtrip(olen);
    assert(whole[0] == tag);
    assert(whole.len() == 9 + plen + tail.len());
    assert(whole.subrange(1, 5) =~= le32_bytes(plen));
    assert(whole.subrange(5, 9) =~= le32_bytes(olen));
    assert(whole.subrange(9, 9 + plen) =~= payload);
    assert(whole.skip(9 + plen) =~= tail);
}

/// Decoding an end marker yields what was decoded so far and the bytes
/// behind the marker.
pub proof fn lemma_end_step(rest: Seq<u8>, acc: Seq<u8>)
    ensures
        blocks_dec(seq![TAG_END].add(rest), acc) == Result::<(Seq<u8>, Seq<u8>), EngineError>::Ok(
            (acc, rest),
        ),
{
    let whole = seq![TAG_END].add(rest);
    assert(whole[0] == TAG_END);
    assert(whole.skip(1) =~= rest);
}

/// Block decoding only ever appends: the decoded result starts with
/// whatever was decoded before it.
pub proof fn lemma_blocks_prefix(s: Seq<u8>, acc: Seq<u8>)
    requires
        blocks_dec(s, acc) is Ok,
    ensures
        blocks_dec(s, acc)->Ok_0.0.len() >= acc.len(),
        blocks_dec(s, acc)->Ok_0.0.subrange(0, acc.len() as int) =~= acc,
    decreases s.len(),
{
    if s.len() == 0 {
    } else if s[0] == TAG_END {
        assert(acc.subrange(0, acc.len() as int) =~= acc);
    } else {
        let plen = le32_value(s.subrange(1, 5));
        let b = block_decode(s[0], s.subrange(9, 9 + plen))->Ok_0;
        let acc2 = acc.add(b);
        lemma_blocks_prefix(s.skip(9 + plen), acc2);
        let x = blocks_dec(s, acc)->Ok_0.0;
        assert(x.subrange(0, acc.len() as int) =~= x.subrange(0, acc2.len() as int).subrange(
            0,
            acc.len() as int,
        ));
        assert(acc2.subrange(0, acc.len() as int) =~= acc);
    }
}

/// Encodes one chunk of input as a block appended to `out`, stored as a
/// token stream where that is shorter and raw where it is not.
pub fn encode_block(chunk: &[u8], out: &mut Vec<u8>)
    requires
        1 <= chunk@.len() <= BLOCK_LIMIT,
    ensures
        final(out)@.len() >= old(out)@.len() + 9,
        final(out)@.len() <= old(out)@.len() + 9 + chunk@.len(),
        final(out)@.subrange(0, old(out)@.len() as int) =~= old(out)@,
        is_block_for(final(out)@.skip(old(out)@.len() as int), chunk@),
{
    let ghost start = out@.len() as int;
    let lz = encode_payload(chunk);
    if lz.len() < chunk.len() {
        out.push(TAG_TOKENS);
        push_u32_le(out, lz.len() as u32);
        push_u32_le(out, chunk.len() as u32);
        out.extend_from_slice(lz.as_slice());
        proof {
            assert(out@.skip(start) =~= seq![TAG_TOKENS].add(le32_bytes(lz@.len() as int)).add(
                le32_bytes(chunk@.len() as int),
            ).add(lz@));
            assert(block_decode(TAG_TOKENS, lz@) == Result::<Seq<u8>, EngineError>::Ok(chunk@));
            assert(is_block_for(out@.skip(start), chunk@));
            assert(out@.subrange(0, start) =~= old(out)@);
        }
    } else {
        out.push(TAG_RAW);
        push_u32_le(out, chunk.len() as u32);
        push_u32_le(out, chunk.len() as u32);
        out.extend_from_slice(chunk);
        proof {
            assert(out@.skip(start) =~= seq![TAG_RAW].add(le32_bytes(chunk@.len() as int)).add(
                le32_bytes(chunk@.len() as int),
            ).add(chunk@));
            assert(block_decode(TAG_RAW, chunk@) == Result::<Seq<u8>, EngineError>::Ok(chunk@));
            assert(is_block_for(out@.skip(start), chunk@));
            assert(out@.subrange(0, start) =~= old(out)@);
        }
    }
}

/// Whether `s` is a well-formed container that decodes to `x`, with a
/// footer recording the length of `x` and, where `checksum_on` held at
/// compression, its checksum.
pub open spec fn compressed_for(s: Seq<u8>, x: Seq<u8>, checksum_on: bool) -> bool {
    let f = s.skip(s.len() - 24);
    &&& s.len() >= 25
    &&& blocks_dec(s, Seq::empty()) == Result::<(Seq<u8>, Seq<u8>), EngineError>::Ok((x, f))
    &&& footer_well_formed(f)
    &&& footer_orig(f) == x.len()
    &&& footer_has_checksum(f) == checksum_on
    &&& footer_sum(f) == (if checksum_on {
        adler32_spec(x)
    } else {
        0
    })
}

/// Compresses `data` into a complete container: blocks, the end marker,
/// and the footer.
#[verifier::rlimit(100)]
pub fn compress_container(data: &[u8], checksum_on: bool) -> (r: Vec<u8>)
    ensures
        compressed_for(r@, data@, checksum_on),
        r@.len() <= data@.len() + 9 * (data@.len() as int / 0x10_0000) + 34,
{
    let n: usize = data.len();
    let mut out: Vec<u8> = Vec::new();
    let mut i: usize = 0;
    let ghost mut nb: int = 0;
    proof {
        assert forall|tail: Seq<u8>| #[trigger] blocks_dec(out@.add(tail), Seq::empty())
            == blocks_dec(tail, data@.subrange(0, 0)) by {
            assert(out@.add(tail) =~= tail);
            assert(data@.subrange(0, 0) =~= Seq::<u8>::empty());
        }
    }
    while i < n
        invariant
            i <= n,
            n == data@.len(),
            nb >= 0,
            out@.len() <= i + 9 * nb,
            0x10_0000 * nb == i || (i == n && 0x10_0000 * (nb - 1) <= i - 1),
            forall|tail: Seq<u8>| #[trigger] blocks_dec(out@.add(tail), Seq::empty())
                == blocks_dec(tail, data@.subrange(0, i as int)),
        decreases n - i,
    {
        let blk: usize = if n - i < 0x10_0000 {
            n - i
        } else {
            0x10_0000
        };
        let chunk = vstd::slice::slice_subrange(data, i, i + blk);
        let ghost prev = out@;
        encode_block(chunk, &mut out);
        let ghost bb = out@.skip(prev.len() as int);
        proof {
            assert(out@ =~= prev.add(bb));
            assert forall|tail: Seq<u8>| #[trigger] blocks_dec(out@.add(tail), Seq::empty())
                == blocks_dec(tail, data@.subrange(0, i as int + blk as int)) by {
                assert(out@.add(tail) =~= prev.add(bb.add(tail)));
                assert(blocks_dec(prev.add(bb.add(tail)), Seq::empty()) == blocks_dec(
                    bb.add(tail),
                    data@.subrange(0, i as int),
                ));
                lemma_block_step(bb, chunk@, tail, data@.subrange(0, i as int));
                assert(data@.subrange(0, i as int).add(chunk@) =~= data@.subrange(
                    0,
                    i as int + blk as int,
                ));
            }
            nb = nb + 1;
        }
        i = i + blk;
    }
    let sum: u32 = if checksum_on {
        adler32(data)
    } else {
        0
    };
    let ghost blocks_part = out@;
    out.push(TAG_END);
    append_footer(&mut out, n as u64, checksum_on, sum);
    proof {
        let f = footer_bytes(n as int, checksum_on, sum as int);
        lemma_footer_bytes(n as int, checksum_on, sum as int);
        assert(out@ =~= blocks_part.add(seq![TAG_END].add(f)));
        assert(blocks_dec(blocks_part.add(seq![TAG_END].add(f)), Seq::empty()) == blocks_dec(
            seq![TAG_END].add(f),
            data@.subrange(0, n as int),
        ));
        lemma_end_step(f, data@.subrange(0, n as int));
        assert(data@.subrange(0, n as int) =~= data@);
        assert(out@.skip(out@.len() - 24) =~= f);
        assert(nb <= n as int / 0x10_0000 + 1) by {
            if 0x10_0000 * nb == n as int {
                vstd::arithmetic::div_mod::lemma_div_by_multiple(nb, 0x10_0000);
            } else if nb == 0 {
                vstd::arithmetic::div_mod::lemma_div_pos_is_pos(n as int, 0x10_0000);
            } else {
                vstd::arithmetic::div_mod::lemma_div_by_multiple(nb - 1, 0x10_0000);
                vstd::arithmetic::div_mod::lemma_div_is_ordered(
                    0x10_0000 * (nb - 1),
                    n as int - 1,
                    0x10_0000,
                );
                vstd::arithmetic::div_mod::lemma_div_is_ordered(n as int - 1, n as int, 0x10_0000);
            }
        }
    }
    out
}

/// Whether a container's block sequence decodes cleanly: the blocks parse,
/// the decoded bytes fit `cap`, and exactly the footer follows the end
/// marker.
pub open spec fn container_ok(s: Seq<u8>, cap: int) -> bool {
    &&& blocks_dec(s, Seq::empty()) is Ok
    &&& blocks_dec(s, Seq::empty())->Ok_0.0.len() <= cap
    &&& blocks_dec(s, Seq::empty())->Ok_0.1.len() == 24
}

/// The bytes a container's block sequence decodes to.
pub open spec fn container_value(s: Seq<u8>) -> Seq<u8> {
    blocks_dec(s, Seq::empty())->Ok_0.0
}

/// Decodes the block sequence of a container, refusing to grow the output
/// beyond `max_out` bytes and demanding exactly the footer after the end
/// marker.
pub fn decode_container(s: &[u8], max_out: usize) -> (r: Result<Vec<u8>, EngineError>)
    ensures
        match r {
            Ok(v) => container_ok(s@, max_out as int) && v@ == container_value(s@),
            Err(_) => !container_ok(s@, max_out as int),
        },
{
    let n: usize = s.len();
    let mut out: Vec<u8> = Vec::new();
    let mut pos: usize = 0;
    assert(s@.skip(0) =~= s@);
    loop
        invariant
            pos <= n,
            n == s@.len(),
            out@.len() <= max_out,
            blocks_dec(s@, Seq::empty()) == blocks_dec(s@.skip(pos as int), out@),
        decreases n - pos,
    {
        let ghost suffix = s@.skip(pos as int);
        if pos >= n {
            assert(suffix =~= Seq::<u8>::empty());
            return Err(EngineError::SrcTooSmall);
        }
        let tag = s[pos];
        assert(suffix[0] == tag);
        if tag == TAG_END {
            assert(suffix.skip(1) =~= s@.skip(pos as int + 1));
            if n - pos - 1 != 24 {
                return Err(EngineError::CorruptData);
            }
            return Ok(out);
        }
        if tag != TAG_RAW && tag != TAG_TOKENS {
            return Err(EngineError::BadBlockType);
        }
        if n - pos < 9 {
            return Err(EngineError::SrcTooSmall);
        }
        proof {
            assert(suffix.subrange(1, 5) =~= s@.subrange(pos as int + 1, pos as int + 5));
            assert(suffix.subrange(5, 9) =~= s@.subrange(pos as int + 5, pos as int + 9));
        }
        let plen: usize = read_u32_le(s, pos + 1) as usize;
        let olen: usize = read_u32_le(s, pos + 5) as usize;
        if n - pos - 9 < plen {
            return Err(EngineError::SrcTooSmall);
        }
        let payload = vstd::slice::slice_subrange(s, pos + 9, pos + 9 + plen);
        proof {
            assert(payload@ =~= suffix.subrange(9, 9 + plen as int));
            assert(suffix.skip(9 + plen as int) =~= s@.skip(pos as int + 9 + plen as int));
        }
        if max_out - out.len() < olen {
            proof {
                if blocks_dec(s@, Seq::empty()) is Ok {
                    let b = block_decode(tag, payload@)->Ok_0;
                    lemma_blocks_prefix(suffix.skip(9 + plen as int), out@.add(b));
                }
            }
            return Err(EngineError::DstTooSmall);
        }
        let ghost before = out@;
        if tag == TAG_RAW {
            if plen != olen {
                return Err(EngineError::CorruptData);
            }
            out.extend_from_slice(payload);
            proof {
                assert(out@ =~= before.add(payload@));
                assert(blocks_dec(suffix, before) == blocks_dec(
                    suffix.skip(9 + plen as int),
                    before.add(payload@),
                ));
            }
        } else {
            match decode_payload(payload, olen) {
                Ok(v) => {
                    if v.len() != olen {
                        return Err(EngineError::CorruptData);
                    }
                    out.extend_from_slice(v.as_slice());
                    proof {
                        assert(out@ =~= before.add(v@));
                        assert(blocks_dec(suffix, before) == blocks_dec(
                            suffix.skip(9 + plen as int),
                            before.add(v@),
                        ));
                    }
                },
                Err(_) => {
                    return Err(EngineError::CorruptData);
                },
            }
        }
        pos = pos + 9 + plen;
    }
}

} // verus!
