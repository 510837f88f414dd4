//! Tests of the streaming API: chunked round trips, agreement with the
//! buffer API, mismatched worker settings, and repeated use.

use zxc::stream::parse_block_sizes;
use zxc::{
    compress, decompress, decompressed_size, Level, StreamCompressOptions,
    StreamCompressor, StreamDecompressOptions, StreamDecompressor,
};

/// Drives a [`StreamDecompressor`] over a whole container held in memory,
/// the way a file loop would: one block at a time, then the footer.
fn decode_stream(stream: &[u8], opts: &StreamDecompressOptions) -> Result<Vec<u8>, String> {
    let mut dec = StreamDecompressor::new(opts);
    let mut out: Vec<u8> = Vec::new();
    let mut pos: usize = 0;
    loop {
        if pos >= stream.len() {
            return Err("missing end marker".to_string());
        }
        let tag = stream[pos];
        if tag == 0 {
            pos += 1;
            break;
        }
        if pos + 9 > stream.len() {
            return Err("truncated header".to_string());
        }
        let (plen, olen) = parse_block_sizes(&stream[pos + 1..pos + 9]);
        if pos + 9 + plen > stream.len() {
            return Err("truncated payload".to_string());
        }
        let payload = &stream[pos + 9..pos + 9 + plen];
        let piece = dec
            .push_block(tag, payload, olen)
            .map_err(|e| format!("{:?}", e))?;
        out.extend_from_slice(&piece);
        pos += 9 + plen;
    }
    if pos + 24 != stream.len() {
        return Err("bad footer length".to_string());
    }
    let total = dec
        .finish(&stream[pos..pos + 24])
        .map_err(|e| format!("{:?}", e))?;
    assert_eq!(total, out.len() as u64);
    Ok(out)
}

fn compress_in_chunks(data: &[u8], chunk_size: usize, opts: &StreamCompressOptions) -> Vec<u8> {
    let mut comp = StreamCompressor::new(opts);
    let mut stream: Vec<u8> = Vec::new();
    let mut pos: usize = 0;
    while pos < data.len() {
        let end = (pos + chunk_size).min(data.len());
        let piece = comp.push_chunk(&data[pos..end]);
        stream.extend_from_slice(&piece);
        pos = end;
    }
    stream.extend_from_slice(&comp.finish());
    stream
}

#[test]
fn test_stream_roundtrip_chunked() {
    let data: Vec<u8> = (0..300 * 1024).map(|i| ((i / 3) % 256) as u8).collect();
    let opts = StreamCompressOptions::with_level(Level::Default).threads(4);
    let stream = compress_in_chunks(&data, 7000, &opts);
    let out = decode_stream(&stream, &StreamDecompressOptions::default().threads(1)).unwrap();
    assert_eq!(out, data);
}

#[test]
fn test_stream_chunking_does_not_change_output() {
    let data: Vec<u8> = (0..100_000).map(|i| ((i % 256) ^ (i / 999)) as u8).collect();
    let opts = StreamCompressOptions::default();
    let a = compress_in_chunks(&data, 1024, &opts);
    let b = compress_in_chunks(&data, 99_999, &opts);
    let out_a = decode_stream(&a, &StreamDecompressOptions::default()).unwrap();
    let out_b = decode_stream(&b, &StreamDecompressOptions::default()).unwrap();
    assert_eq!(out_a, data);
    assert_eq!(out_b, data);
}

#[test]
fn test_stream_mismatched_thread_counts() {
    // Compress a 1 MiB input with four workers configured, decompress
    // with one: the output must be byte-identical to the original.
    let data: Vec<u8> = (0..1024 * 1024)
        .map(|i| ((i % 256) ^ ((i / 256) % 256)) as u8)
        .collect();
    let opts = StreamCompressOptions::with_level(Level::Default).threads(4);
    let stream = compress_in_chunks(&data, 128 * 1024, &opts);
    let out = decode_stream(&stream, &StreamDecompressOptions::default().threads(1)).unwrap();
    assert_eq!(out, data);
}

#[test]
fn test_stream_output_decodes_through_buffer_api() {
    // A stream-compressed container is a valid buffer container too.
    let data: Vec<u8> = (0..50_000).map(|i| ((i * 7) % 250) as u8).collect();
    let stream = compress_in_chunks(&data, 4096, &StreamCompressOptions::default());
    assert_eq!(decompressed_size(&stream), Some(data.len()));
    let out = decompress(&stream).unwrap();
    assert_eq!(out, data);
}

#[test]
fn test_buffer_output_decodes_through_stream_api() {
    // A buffer-compressed container decodes block by block too.
    let data: Vec<u8> = (0..50_000).map(|i| ((i * 13) % 241) as u8).collect();
    let compressed = compress(&data, Level::Default, Some(true)).unwrap();
    let out = decode_stream(&compressed, &StreamDecompressOptions::default()).unwrap();
    assert_eq!(out, data);
}

#[test]
fn test_stream_empty_input() {
    let comp = StreamCompressor::new(&StreamCompressOptions::default());
    let stream = comp.finish();
    let out = decode_stream(&stream, &StreamDecompressOptions::default()).unwrap();
    assert_eq!(out.len(), 0);
    assert_eq!(decompressed_size(&stream), Some(0));
}

#[test]
fn test_stream_verify_catches_wrong_footer() {
    let data = b"stream data with a checksum recorded at the end";
    let mut stream = compress_in_chunks(data, 16, &StreamCompressOptions::default());
    // Damage the recorded checksum inside the footer, then repair the
    // footer's own integrity check so that only payload verification can
    // object.
    let n = stream.len();
    stream[n - 8] ^= 0x01;
    let head_sum = {
        let head = &stream[n - 24..n - 4];
        adler(head)
    };
    stream[n - 4..n].copy_from_slice(&head_sum.to_le_bytes());
    let verified = decode_stream(
        &stream,
        &StreamDecompressOptions { threads: None, verify_checksum: true },
    );
    assert!(verified.is_err());
}

/// A plain Adler-32, for rebuilding footer integrity bytes in tests.
fn adler(bytes: &[u8]) -> u32 {
    let mut a: u32 = 1;
    let mut b: u32 = 0;
    for &x in bytes {
        a = (a + x as u32) % 65521;
        b = (b + a) % 65521;
    }
    b * 65536 + a
}

#[test]
fn test_stream_repeated_sessions() {
    // Many short-lived compressor/decompressor pairs in a row: each is a
    // plain value, so repeated use must neither fail nor interfere.
    let data = b"a short message that is compressed over and over again";
    for _ in 0..1000 {
        let stream = compress_in_chunks(data, 9, &StreamCompressOptions::default());
        let out = decode_stream(&stream, &StreamDecompressOptions::default()).unwrap();
        assert_eq!(&out[..], &data[..]);
    }
}
