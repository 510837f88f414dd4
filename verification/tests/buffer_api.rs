//! Tests of the buffer API: round trips, levels, options, the size
//! query, and the error paths.

use zxc::{
    compress, compress_bound, compress_to, compress_with_options, decompress, decompress_to,
    decompress_with_options, decompressed_size, version, version_string, CompressOptions,
    DecompressOptions, Error, Level,
};

#[test]
fn test_roundtrip() {
    let data = b"Hello, ZXC! This is a test of the safe Rust wrapper.";
    let compressed = compress(data, Level::Default, None).unwrap();
    let decompressed = decompress(&compressed).unwrap();
    assert_eq!(&decompressed[..], &data[..]);
}

#[test]
fn test_all_levels() {
    let data = b"Test data with repetition: CCCCCCCCCCCCCCCCCCCCCCCCCCCCCC";

    for level in Level::all() {
        let compressed = compress(data, level, None).unwrap();
        let decompressed = decompress(&compressed).unwrap();
        assert_eq!(
            &decompressed[..],
            &data[..],
            "Roundtrip failed at level {:?}",
            level
        );
    }
}

#[test]
fn test_empty() {
    let data: &[u8] = b"";
    let compressed = compress(data, Level::Default, None).unwrap();
    let decompressed = decompress(&compressed).unwrap();
    assert_eq!(decompressed.len(), 0);
}

#[test]
fn test_checksum_options() {
    let data = b"Test with and without checksum";

    // With checksum
    let opts_with = CompressOptions::with_level(Level::Default);
    let compressed = compress_with_options(data, &opts_with).unwrap();
    let decompressed = decompress(&compressed).unwrap();
    assert_eq!(&decompressed[..], &data[..]);

    // Without checksum
    let opts_without = CompressOptions::with_level(Level::Fast).without_checksum();
    let compressed = compress_with_options(data, &opts_without).unwrap();
    let decompressed =
        decompress_with_options(&compressed, &DecompressOptions::skip_checksum()).unwrap();
    assert_eq!(&decompressed[..], &data[..]);
}

#[test]
fn test_decompressed_size() {
    let data = b"Hello, world! Testing decompressed_size function.";
    let compressed = compress(data, Level::Default, None).unwrap();
    let size = decompressed_size(&compressed);
    assert_eq!(size, Some(data.len()));
}

#[test]
fn test_version() {
    let (major, minor, patch) = version();

    let expected = format!("{}.{}.{}", major, minor, patch);
    assert_eq!(version_string(), expected);

    assert_eq!(expected, "1.0.0");
}

#[test]
fn test_invalid_data() {
    let garbage = b"not valid zxc data";
    let result = decompress(garbage);
    assert!(result.is_err());
}

#[test]
fn test_compress_to_buffer() {
    let data = b"Testing compress_to with pre-allocated buffer";
    let mut output = vec![0u8; compress_bound(data.len())];

    let size = compress_to(data, &mut output, &CompressOptions::default()).unwrap();
    output.truncate(size);

    let decompressed = decompress(&output).unwrap();
    assert_eq!(&decompressed[..], &data[..]);
}

#[test]
fn test_large_data() {
    // 1 MB of random-ish but compressible data
    let data: Vec<u8> = (0..1024 * 1024)
        .map(|i| ((i % 256) ^ ((i / 256) % 256)) as u8)
        .collect();

    let compressed = compress(&data, Level::Default, None).unwrap();
    assert!(compressed.len() < data.len()); // Should compress

    let decompressed = decompress(&compressed).unwrap();
    assert_eq!(decompressed, data);
}

#[test]
fn test_compress_bound() {
    let bound = compress_bound(1024);
    // Should return a reasonable bound (input + overhead)
    assert!(bound > 1024);
    assert!(bound < 1024 * 2); // Should not be excessively large
}

#[test]
fn lib_test_roundtrip() {
    // Use highly repetitive data that definitely compresses well
    let input: Vec<u8> = (0..4096)
        .map(|i| ((i % 16) as u8).wrapping_add(b'A'))
        .collect();

    let compressed = compress(&input, Level::Default, Some(true)).unwrap();
    assert!(compressed.len() > 0, "Compression failed");
    // Highly repetitive data should compress significantly
    assert!(
        compressed.len() < input.len() / 2,
        "Data should compress well"
    );

    let size = decompressed_size(&compressed);
    assert_eq!(size, Some(input.len()));

    let decompressed =
        decompress_with_options(&compressed, &DecompressOptions { verify_checksum: true }).unwrap();
    assert_eq!(decompressed.len(), input.len());
    assert_eq!(&decompressed[..], &input[..]);
}

#[test]
fn lib_test_all_levels() {
    let input: &[u8] = b"Test data for all compression levels - with some repetition \
                      to ensure compression works: BBBBBBBBBBBBBBBBBBBBBBBBBBBBB";

    for level in Level::all() {
        let compressed = compress(input, level, Some(true));
        assert!(
            compressed.is_ok(),
            "Compression failed at level {}",
            level.ordinal()
        );
        assert!(compressed.unwrap().len() > 0);
    }
}

#[test]
fn test_truncated_footer_query() {
    // A 3-byte buffer is far too short to hold a footer.
    let buf = [0x01u8, 0x02, 0x03];
    assert_eq!(decompressed_size(&buf), None);
}

#[test]
fn test_empty_buffer_size_query() {
    // The size query reports zero for an empty buffer.
    let buf: &[u8] = b"";
    assert_eq!(decompressed_size(buf), Some(0));
}

#[test]
fn test_compress_to_small_buffer() {
    let data = b"This will not fit in three bytes.";
    let mut output = vec![0u8; 3];
    let r = compress_to(data, &mut output, &CompressOptions::default());
    assert!(matches!(r, Err(Error::CompressionFailed)));
    assert_eq!(output, vec![0u8, 0, 0]);
}

#[test]
fn test_decompress_to_buffer() {
    let data = b"Round trip through a caller-provided buffer.";
    let compressed = compress(data, Level::Balanced, Some(true)).unwrap();
    let size = decompressed_size(&compressed).unwrap();
    let mut output = vec![0u8; size];
    let opts = DecompressOptions { verify_checksum: true };
    let written = decompress_to(&compressed, &mut output, &opts).unwrap();
    assert_eq!(written, data.len());
    assert_eq!(&output[..], &data[..]);
}

#[test]
fn test_decompress_to_undersized_buffer() {
    let data = b"Some bytes that need more room than offered here.";
    let compressed = compress(data, Level::Default, None).unwrap();
    let mut output = vec![0u8; 4];
    let r = decompress_to(&compressed, &mut output, &DecompressOptions::default());
    assert!(r.is_err());
}

#[test]
fn test_corrupted_payload_rejected() {
    let data: Vec<u8> = (0..2048).map(|i| (i % 7) as u8).collect();
    let mut compressed = compress(&data, Level::Default, Some(true)).unwrap();
    // Damage a byte inside the block region, leaving the footer intact.
    let mid = 12.min(compressed.len() - 25);
    compressed[mid] ^= 0xFF;
    let r = decompress_with_options(&compressed, &DecompressOptions { verify_checksum: true });
    assert!(r.is_err());
}

#[test]
fn test_checksum_verification_catches_flipped_data() {
    // A raw block whose bytes were altered after compression: the footer
    // still parses, so only checksum verification can catch the change.
    let data = b"abcdefghijklmnopqrstuvwxyz0123456789ABCDEF";
    let compressed = compress(data, Level::Default, Some(true)).unwrap();

    // Flip one literal byte inside the block payload.
    let mut damaged = compressed.clone();
    // Find the byte equal to b'q' (it appears once, stored as a literal).
    let idx = damaged.iter().position(|&b| b == b'q').unwrap();
    damaged[idx] = b'Q';

    let verified =
        decompress_with_options(&damaged, &DecompressOptions { verify_checksum: true });
    assert!(verified.is_err());
}

#[test]
fn test_levels_share_decodable_format() {
    let data: Vec<u8> = (0..10_000).map(|i| ((i * i) % 251) as u8).collect();
    for level in Level::all() {
        for checksum in [Some(true), Some(false), None] {
            let compressed = compress(&data, level, checksum).unwrap();
            assert_eq!(decompressed_size(&compressed), Some(data.len()));
            let decompressed = decompress(&compressed).unwrap();
            assert_eq!(decompressed, data);
        }
    }
}

#[test]
fn test_level_accessors() {
    let all = Level::all();
    assert_eq!(all.len(), 5);
    assert_eq!(all[0].ordinal(), 1);
    assert_eq!(all[1].ordinal(), 2);
    assert_eq!(all[2].ordinal(), 3);
    assert_eq!(all[3].ordinal(), 4);
    assert_eq!(all[4].ordinal(), 5);
    assert_eq!(Level::default(), Level::Default);
}

#[test]
fn test_option_builders() {
    let c = CompressOptions::default();
    assert_eq!(c.level, Level::Default);
    assert!(c.checksum);
    let c = CompressOptions::with_level(Level::Compact).without_checksum();
    assert_eq!(c.level, Level::Compact);
    assert!(!c.checksum);
    let d = DecompressOptions::skip_checksum();
    assert!(!d.verify_checksum);
}
