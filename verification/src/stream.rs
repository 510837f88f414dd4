//! The streaming API: block-by-block compression and decompression.
//!
//! A [`StreamCompressor`] takes input in chunks of any size and emits
//! blocks of the same container format the buffer API writes; `finish`
//! closes the container with the end marker and the footer. A
//! [`StreamDecompressor`] takes the container back one block at a time
//! and checks the footer against everything it produced. Neither holds
//! more than one block of data at a time, so a caller can pump a file of
//! any size through them. The bytes produced do not depend on how the
//! input was chunked, nor on any thread count a caller configures.

use vstd::prelude::*;

use crate::checksum::adler32_spec;
use crate::checksum::adler_extend;
use crate::checksum::adler_pair;
use crate::checksum::lemma_adler_concat;
use crate::container::blocks_dec;
use crate::container::block_decode;
use crate::container::compressed_for;
use crate::container::encode_block;
use crate::container::lemma_block_step;
use crate::container::lemma_end_step;
use crate::container::TAG_END;
use crate::container::TAG_RAW;
use crate::container::TAG_TOKENS;
use crate::bytes::le32_value;
use crate::bytes::read_u32_le;
use crate::buffer::decompress_ok;
use crate::buffer::decompressed_value;
use crate::buffer::lemma_round_trip;
use crate::errors::StreamError;
use crate::footer::append_footer;
use crate::footer::footer_bytes;
use crate::footer::footer_has_checksum;
use crate::footer::footer_orig;
use crate::footer::footer_sum;
use crate::footer::footer_well_formed;
use crate::footer::lemma_footer_bytes;
use crate::footer::read_footer;
use crate::level::Level;
use crate::options::StreamCompressOptions;
use crate::options::StreamDecompressOptions;
use crate::tokens::decode_payload;

verus! {

/// A streaming compressor: feed input in chunks, collect container bytes.
pub struct StreamCompressor {
    level: Level,
    checksum: bool,
    s1: u32,
    s2: u32,
    total: u64,
    fed: Ghost<Seq<u8>>,
    emitted: Ghost<Seq<u8>>,
}

impl StreamCompressor {
    /// All input bytes fed so far.
    pub closed spec fn input(&self) -> Seq<u8> {
        self.fed@
    }

    /// All container bytes emitted so far.
    pub closed spec fn output(&self) -> Seq<u8> {
        self.emitted@
    }

    /// Whether the footer will record a checksum of the input.
    pub closed spec fn checksum_on(&self) -> bool {
        self.checksum
    }

    /// The compressor's internal consistency: its running totals follow
    /// the input fed so far, and the blocks emitted so far decode to it.
    pub closed spec fn wf(&self) -> bool {
        &&& self.s1 < 65521
        &&& self.s2 < 65521
        &&& (self.s1 as int, self.s2 as int) == adler_pair(self.fed@)
        &&& self.total as int == self.fed@.len()
        &&& forall|tail: Seq<u8>| #[trigger] blocks_dec(self.emitted@.add(tail), Seq::empty())
            == blocks_dec(tail, self.fed@)
    }

    /// Creates a streaming compressor for the given options.
    pub fn new(options: &StreamCompressOptions) -> (r: Self)
        ensures
            r.wf(),
            r.input() == Seq::<u8>::empty(),
            r.output() == Seq::<u8>::empty(),
            r.checksum_on() == options.checksum,
    {
        let r = StreamCompressor {
            level: options.level,
            checksum: options.checksum,
            s1: 1,
            s2: 0,
            total: 0,
            fed: Ghost(Seq::empty()),
            emitted: Ghost(Seq::empty()),
        };
        proof {
            assert forall|tail: Seq<u8>| #[trigger] blocks_dec(
                r.emitted@.add(tail),
                Seq::empty(),
            ) == blocks_dec(tail, r.fed@) by {
                assert(r.emitted@.add(tail) =~= tail);
            }
        }
        r
    }

    /// Compresses one chunk of input, returning the container bytes it
    /// produced. Chunks may have any size, the empty one included; the
    /// decoded stream is independent of the chunking.
    #[verifier::rlimit(100)]
    pub fn push_chunk(&mut self, chunk: &[u8]) -> (r: Vec<u8>)
        requires
            old(self).wf(),
            old(self).input().len() + chunk@.len() < 0x1_0000_0000_0000_0000,
        ensures
            final(self).wf(),
            final(self).input() =~= old(self).input().add(chunk@),
            final(self).output() =~= old(self).output().add(r@),
            final(self).checksum_on() == old(self).checksum_on(),
    {
        let n: usize = chunk.len();
        let mut out: Vec<u8> = Vec::new();
        let ghost em0 = self.emitted@;
        let ghost fed0 = self.fed@;
        let mut i: usize = 0;
        proof {
            assert forall|tail: Seq<u8>| #[trigger] blocks_dec(
                em0.add(out@).add(tail),
                Seq::empty(),
            ) == blocks_dec(tail, fed0.add(chunk@.subrange(0, 0))) by {
                assert(em0.add(out@).add(tail) =~= em0.add(tail));
                assert(blocks_dec(em0.add(tail), Seq::empty()) == blocks_dec(tail, fed0));
                assert(fed0.add(chunk@.subrange(0, 0)) =~= fed0);
            }
        }
        while i < n
            invariant
                i <= n,
                n == chunk@.len(),
                forall|tail: Seq<u8>| #[trigger] blocks_dec(em0.add(out@).add(tail), Seq::empty())
                    == blocks_dec(tail, fed0.add(chunk@.subrange(0, i as int))),
            decreases n - i,
        {
            let blk: usize = if n - i < 0x10_0000 {
                n - i
            } else {
                0x10_0000
            };
            let piece = vstd::slice::slice_subrange(chunk, i, i + blk);
            let ghost prev = out@;
            encode_block(piece, &mut out);
            let ghost bb = out@.skip(prev.len() as int);
            proof {
                assert(out@ =~= prev.add(bb));
                assert forall|tail: Seq<u8>| #[trigger] blocks_dec(
                    em0.add(out@).add(tail),
                    Seq::empty(),
                ) == blocks_dec(tail, fed0.add(chunk@.subrange(0, i as int + blk as int))) by {
                    assert(em0.add(out@).add(tail) =~= em0.add(prev).add(bb.add(tail)));
                    assert(blocks_dec(em0.add(prev).add(bb.add(tail)), Seq::empty()) == blocks_dec(
                        bb.add(tail),
                        fed0.add(chunk@.subrange(0, i as int)),
                    ));
                    lemma_block_step(
                        bb,
                        piece@,
                        tail,
                        fed0.add(chunk@.subrange(0, i as int)),
                    );
                    assert(fed0.add(chunk@.subrange(0, i as int)).add(piece@) =~= fed0.add(
                        chunk@.subrange(0, i as int + blk as int),
                    ));
                }
            }
            i = i + blk;
        }
        let pair = adler_extend(self.s1, self.s2, chunk);
        self.s1 = pair.0;
        self.s2 = pair.1;
        self.total = self.total + n as u64;
        proof {
            self.fed@ = fed0.add(chunk@);
            self.emitted@ = em0.add(out@);
            lemma_adler_concat(1, 0, fed0, chunk@);
            assert(chunk@.subrange(0, n as int) =~= chunk@);
            assert forall|tail: Seq<u8>| #[trigger] blocks_dec(
                self.emitted@.add(tail),
                Seq::empty(),
            ) == blocks_dec(tail, self.fed@) by {
                assert(self.emitted@.add(tail) =~= em0.add(out@).add(tail));
            }
        }
        out
    }

    /// Closes the stream: emits the end marker and the footer. The
    /// emitted bytes taken together form a well-formed container for
    /// exactly the input that was fed in.
    pub fn finish(self) -> (r: Vec<u8>)
        requires
            self.wf(),
        ensures
            compressed_for(self.output().add(r@), self.input(), self.checksum_on()),
    {
        let sum: u32 = if self.checksum {
            self.s2 * 65536 + self.s1
        } else {
            0
        };
        let mut out: Vec<u8> = Vec::new();
        out.push(TAG_END);
        append_footer(&mut out, self.total, self.checksum, sum);
        proof {
            let f = footer_bytes(self.total as int, self.checksum, sum as int);
            lemma_footer_bytes(self.total as int, self.checksum, sum as int);
            assert(out@ =~= seq![TAG_END].add(f));
            let whole = self.emitted@.add(out@);
            assert(blocks_dec(self.emitted@.add(seq![TAG_END].add(f)), Seq::empty())
                == blocks_dec(seq![TAG_END].add(f), self.fed@));
            lemma_end_step(f, self.fed@);
            assert(whole.skip(whole.len() - 24) =~= f);
        }
        out
    }
}

/// A streaming decompressor: feed the container back one block at a
/// time, then hold the footer against everything produced.
pub struct StreamDecompressor {
    verify: bool,
    s1: u32,
    s2: u32,
    total: u64,
    produced: Ghost<Seq<u8>>,
}

impl StreamDecompressor {
    /// All output bytes produced so far.
    pub closed spec fn produced(&self) -> Seq<u8> {
        self.produced@
    }

    /// Whether the footer's checksum will be verified.
    pub closed spec fn verify_on(&self) -> bool {
        self.verify
    }

    /// The decompressor's internal consistency: its running totals follow
    /// the output produced so far.
    pub closed spec fn wf(&self) -> bool {
        &&& self.s1 < 65521
        &&& self.s2 < 65521
        &&& (self.s1 as int, self.s2 as int) == adler_pair(self.produced@)
        &&& self.total as int == self.produced@.len()
    }

    /// Creates a streaming decompressor for the given options.
    pub fn new(options: &StreamDecompressOptions) -> (r: Self)
        ensures
            r.wf(),
            r.produced() == Seq::<u8>::empty(),
            r.verify_on() == options.verify_checksum,
    {
        StreamDecompressor {
            verify: options.verify_checksum,
            s1: 1,
            s2: 0,
            total: 0,
            produced: Ghost(Seq::empty()),
        }
    }

    /// Decodes one block: its tag, its payload, and the original length
    /// its header records. Succeeds exactly when the payload decodes
    /// under the tag to `olen` bytes.
    pub fn push_block(&mut self, tag: u8, payload: &[u8], olen: usize) -> (r: Result<
        Vec<u8>,
        StreamError,
    >)
        requires
            old(self).wf(),
            old(self).produced().len() + olen < 0x1_0000_0000_0000_0000,
        ensures
            final(self).verify_on() == old(self).verify_on(),
            match r {
                Ok(v) => {
                    &&& block_decode(tag, payload@) == Result::<Seq<u8>, crate::errors::EngineError>::Ok(v@)
                    &&& v@.len() == olen
                    &&& final(self).wf()
                    &&& final(self).produced() =~= old(self).produced().add(v@)
                },
                Err(e) => {
                    &&& !(block_decode(tag, payload@) matches Ok(b) && b.len() == olen)
                    &&& e == StreamError::DecompressionFailed
                    &&& *final(self) == *old(self)
                },
            },
    {
        let v: Vec<u8>;
        if tag == TAG_RAW {
            if payload.len() != olen {
                return Err(StreamError::DecompressionFailed);
            }
            v = vstd::slice::slice_to_vec(payload);
        } else if tag == TAG_TOKENS {
            match decode_payload(payload, olen) {
                Ok(d) => {
                    if d.len() != olen {
                        return Err(StreamError::DecompressionFailed);
                    }
                    v = d;
                },
                Err(_) => {
                    return Err(StreamError::DecompressionFailed);
                },
            }
        } else {
            return Err(StreamError::DecompressionFailed);
        }
        let ghost before = self.produced@;
        let pair = adler_extend(self.s1, self.s2, v.as_slice());
        self.s1 = pair.0;
        self.s2 = pair.1;
        self.total = self.total + olen as u64;
        proof {
            self.produced@ = before.add(v@);
            lemma_adler_concat(1, 0, before, v@);
        }
        Ok(v)
    }

    /// Holds the 24 footer bytes against everything produced: the magic,
    /// the footer's own integrity check, the recorded size, and, where
    /// verification is on and a checksum is recorded, the checksum.
    /// Returns the total number of bytes produced.
    pub fn finish(&self, footer: &[u8]) -> (r: Result<u64, StreamError>)
        requires
            self.wf(),
        ensures
            match r {
                Ok(k) => {
                    &&& footer@.len() == 24
                    &&& footer_well_formed(footer@)
                    &&& footer_orig(footer@) == self.produced().len()
                    &&& (self.verify_on() && footer_has_checksum(footer@) ==> footer_sum(footer@)
                        == adler32_spec(self.produced()))
                    &&& k as int == self.produced().len()
                },
                Err(e) => {
                    &&& e == StreamError::DecompressionFailed
                    &&& !({
                        &&& footer@.len() == 24
                        &&& footer_well_formed(footer@)
                        &&& footer_orig(footer@) == self.produced().len()
                        &&& (self.verify_on() && footer_has_checksum(footer@) ==> footer_sum(
                            footer@,
                        ) == adler32_spec(self.produced()))
                    })
                },
            },
    {
        if footer.len() != 24 {
            return Err(StreamError::DecompressionFailed);
        }
        let ghost tail = footer@.skip(footer@.len() - 24);
        proof {
            assert(tail =~= footer@);
        }
        let (orig, has, sum) = match read_footer(footer) {
            None => {
                return Err(StreamError::DecompressionFailed);
            },
            Some(t) => t,
        };
        if orig != self.total {
            return Err(StreamError::DecompressionFailed);
        }
        if self.verify && has {
            let computed: u32 = self.s2 * 65536 + self.s1;
            if computed != sum {
                return Err(StreamError::DecompressionFailed);
            }
        }
        Ok(self.total)
    }
}

/// Reads the payload length and the original length from the 8 header
/// bytes that follow a block tag.
pub fn parse_block_sizes(h: &[u8]) -> (r: (usize, usize))
    requires
        h@.len() == 8,
        usize::MAX >= 0xFFFF_FFFF,
    ensures
        r.0 as int == le32_value(h@.subrange(0, 4)),
        r.1 as int == le32_value(h@.subrange(4, 8)),
{
    let plen = read_u32_le(h, 0) as usize;
    let olen = read_u32_le(h, 4) as usize;
    (plen, olen)
}

/// Streaming and buffer decoding agree: a container assembled by the
/// streaming compressor — under any chunking of the input and any thread
/// counts, which never enter the format — decompresses to exactly the
/// bytes that were fed in, and does so identically through the buffer
/// decoder.
pub proof fn lemma_stream_roundtrip(s: Seq<u8>, x: Seq<u8>, checksum_on: bool, verify: bool)
    requires
        compressed_for(s, x, checksum_on),
        x.len() <= usize::MAX,
    ensures
        decompress_ok(s, verify),
        decompressed_value(s) == x,
{
    lemma_round_trip(s, x, checksum_on, verify);
}

} // verus!
