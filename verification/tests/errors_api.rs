//! Tests of the error taxonomy: status codes, their names, and the
//! distinct failure reasons of the buffer facade.

use zxc::errors::{classify_engine_result, error_name, EngineError};
use zxc::{compress, decompress, DecompressOptions, Error, Level};

#[test]
fn test_error_names() {
    assert_eq!(error_name(0), "ZXC_OK");
    assert_eq!(error_name(-1), "ZXC_ERROR_MEMORY");
    assert_eq!(error_name(-2), "ZXC_ERROR_DST_TOO_SMALL");
    assert_eq!(error_name(-3), "ZXC_ERROR_SRC_TOO_SMALL");
    assert_eq!(error_name(-4), "ZXC_ERROR_BAD_MAGIC");
    assert_eq!(error_name(-5), "ZXC_ERROR_BAD_VERSION");
    assert_eq!(error_name(-6), "ZXC_ERROR_BAD_HEADER");
    assert_eq!(error_name(-7), "ZXC_ERROR_BAD_CHECKSUM");
    assert_eq!(error_name(-8), "ZXC_ERROR_CORRUPT_DATA");
    assert_eq!(error_name(-9), "ZXC_ERROR_BAD_OFFSET");
    assert_eq!(error_name(-10), "ZXC_ERROR_OVERFLOW");
    assert_eq!(error_name(-11), "ZXC_ERROR_IO");
    assert_eq!(error_name(-12), "ZXC_ERROR_NULL_INPUT");
    assert_eq!(error_name(-13), "ZXC_ERROR_BAD_BLOCK_TYPE");
    assert_eq!(error_name(-99), "ZXC_UNKNOWN_ERROR");
    assert_eq!(error_name(7), "ZXC_UNKNOWN_ERROR");
}

#[test]
fn test_classify_engine_result() {
    assert_eq!(classify_engine_result(0), Ok(0));
    assert_eq!(classify_engine_result(4096), Ok(4096));
    assert_eq!(classify_engine_result(-7), Err(EngineError::BadChecksum));
    assert_eq!(classify_engine_result(-8), Err(EngineError::CorruptData));
    assert_eq!(classify_engine_result(-2), Err(EngineError::DstTooSmall));
    assert_eq!(classify_engine_result(-42), Err(EngineError::Unknown(-42)));
}

#[test]
fn test_engine_error_codes() {
    assert_eq!(EngineError::Memory.code(), -1);
    assert_eq!(EngineError::BadMagic.code(), -4);
    assert_eq!(EngineError::BadBlockType.code(), -13);
    assert_eq!(EngineError::Unknown(-55).code(), -55);
    // The code of a classified failure is the code that was classified.
    for code in -13..0i64 {
        let e = classify_engine_result(code).unwrap_err();
        assert_eq!(e.code(), code);
    }
}

#[test]
fn test_unreadable_footer_is_invalid_data() {
    // Long enough to hold a footer, but with the wrong magic.
    let garbage = vec![0x11u8; 64];
    let r = decompress(&garbage);
    assert!(matches!(r, Err(Error::InvalidData)));
}

#[test]
fn test_size_mismatch_reason() {
    // A container whose blocks decode to one byte while the footer
    // records two: the facade reports that as a distinct size mismatch.
    let mut c: Vec<u8> = Vec::new();
    c.push(1); // raw block
    c.extend_from_slice(&1u32.to_le_bytes()); // payload length
    c.extend_from_slice(&1u32.to_le_bytes()); // original length
    c.push(b'x');
    c.push(0); // end marker
    let mut footer: Vec<u8> = Vec::new();
    footer.extend_from_slice(&[0x5A, 0x58, 0x43, 0x46]); // magic
    footer.push(1); // version
    footer.push(0); // no checksum
    footer.extend_from_slice(&[0, 0]);
    footer.extend_from_slice(&2u64.to_le_bytes()); // recorded size: 2
    footer.extend_from_slice(&0u32.to_le_bytes()); // payload checksum
    let check = adler(&footer);
    footer.extend_from_slice(&check.to_le_bytes());
    c.extend_from_slice(&footer);

    let r = decompress(&c);
    match r {
        Err(Error::DecompressionFailed(reason)) => assert_eq!(reason, "size mismatch"),
        other => panic!("expected a size mismatch, got {:?}", other),
    }
}

#[test]
fn test_corrupt_block_reason() {
    // A container whose block region is nonsense under a valid footer.
    let mut c: Vec<u8> = Vec::new();
    c.push(7); // no such block tag
    c.push(0);
    let mut footer: Vec<u8> = Vec::new();
    footer.extend_from_slice(&[0x5A, 0x58, 0x43, 0x46]);
    footer.push(1);
    footer.push(0);
    footer.extend_from_slice(&[0, 0]);
    footer.extend_from_slice(&0u64.to_le_bytes());
    footer.extend_from_slice(&0u32.to_le_bytes());
    let check = adler(&footer);
    footer.extend_from_slice(&check.to_le_bytes());
    c.extend_from_slice(&footer);

    let r = decompress(&c);
    match r {
        Err(Error::DecompressionFailed(reason)) => {
            assert_eq!(reason, "invalid data or buffer too small")
        }
        other => panic!("expected a decompression failure, got {:?}", other),
    }
}

#[test]
fn test_wrong_version_rejected() {
    let data = b"versioned container bytes";
    let mut compressed = compress(data, Level::Default, None).unwrap();
    let n = compressed.len();
    // Bump the version byte and repair the footer's integrity check.
    compressed[n - 20] = 2;
    let check = adler(&compressed[n - 24..n - 4]);
    compressed[n - 4..n].copy_from_slice(&check.to_le_bytes());
    let r = decompress_with_verify(&compressed);
    assert!(matches!(r, Err(Error::InvalidData)));
}

fn decompress_with_verify(c: &[u8]) -> Result<Vec<u8>, Error> {
    zxc::decompress_with_options(c, &DecompressOptions { verify_checksum: true })
}

#[test]
fn test_error_messages() {
    assert_eq!(Error::CompressionFailed.message(), "compression failed");
    assert_eq!(
        Error::DecompressionFailed("size mismatch").message(),
        "decompression failed: size mismatch"
    );
    assert_eq!(Error::InvalidData.message(), "invalid compressed data");
    assert_eq!(
        zxc::StreamError::DecompressionFailed.message(),
        "stream decompression failed"
    );
    assert_eq!(
        zxc::StreamError::InvalidFile.message(),
        "invalid compressed file"
    );
}

/// A plain Adler-32, for building footers by hand in tests.
fn adler(bytes: &[u8]) -> u32 {
    let mut a: u32 = 1;
    let mut b: u32 = 0;
    for &x in bytes {
        a = (a + x as u32) % 65521;
        b = (b + a) % 65521;
    }
    b * 65536 + a
}
