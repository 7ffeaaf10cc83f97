use gstzenoh::compression::{algo_to_byte, compress, decompress, CompressionError, CompressionType};

#[test]
fn test_compression_type_metadata_conversion() {
    assert_eq!(CompressionType::Uncompressed.to_metadata_value(), "none");
    assert_eq!(
        CompressionType::from_metadata_value("none"),
        Some(CompressionType::Uncompressed)
    );
    assert_eq!(CompressionType::Zstd.to_metadata_value(), "zstd");
    assert_eq!(
        CompressionType::from_metadata_value("zstd"),
        Some(CompressionType::Zstd)
    );
    assert_eq!(CompressionType::Lz4.to_metadata_value(), "lz4");
    assert_eq!(
        CompressionType::from_metadata_value("lz4"),
        Some(CompressionType::Lz4)
    );
    assert_eq!(CompressionType::Gzip.to_metadata_value(), "gzip");
    assert_eq!(
        CompressionType::from_metadata_value("gzip"),
        Some(CompressionType::Gzip)
    );
    assert_eq!(CompressionType::from_metadata_value("invalid"), None);
}

#[test]
fn test_decompress_rejects_unframed_payload() {
    let not_a_frame = b"this is plainly not a compression frame";
    let err = decompress(not_a_frame, CompressionType::Zstd);
    assert!(err.is_err(), "unframed payload must be rejected");
}

#[test]
fn test_no_compression() {
    let data = b"Hello, World!";
    let compressed = compress(data, CompressionType::Uncompressed, 5).unwrap();
    assert_eq!(compressed, data);

    let decompressed = decompress(&compressed, CompressionType::Uncompressed).unwrap();
    assert_eq!(decompressed, data);
}

#[test]
fn test_invalid_level() {
    let data = b"test";
    assert!(compress(data, CompressionType::Uncompressed, 0).is_err());
    assert!(compress(data, CompressionType::Uncompressed, 10).is_err());
}

#[test]
fn test_zstd_compression() {
    // Repeated payload so compression beats the small frame header overhead.
    let data = b"This is a test string that should compress well with repeated patterns repeated patterns".repeat(8);
    let compressed = compress(&data, CompressionType::Zstd, 5).unwrap();

    // Compressed (framed) data should still be smaller than the input.
    assert!(compressed.len() < data.len());

    let decompressed = decompress(&compressed, CompressionType::Zstd).unwrap();
    assert_eq!(decompressed, data);
}

#[test]
fn test_lz4_compression() {
    let data = b"This is a test string that should compress well with repeated patterns repeated patterns";
    let compressed = compress(data, CompressionType::Lz4, 5).unwrap();

    let decompressed = decompress(&compressed, CompressionType::Lz4).unwrap();
    assert_eq!(decompressed, data);
}

#[test]
fn test_gzip_compression() {
    // Repeated payload so compression beats the small frame header overhead.
    let data = b"This is a test string that should compress well with repeated patterns repeated patterns".repeat(8);
    let compressed = compress(&data, CompressionType::Gzip, 5).unwrap();

    // Compressed (framed) data should still be smaller than the input.
    assert!(compressed.len() < data.len());

    let decompressed = decompress(&compressed, CompressionType::Gzip).unwrap();
    assert_eq!(decompressed, data);
}

#[test]
fn test_compression_levels() {
    let data = b"Test data for compression levels";

    let level1 = compress(data, CompressionType::Zstd, 1).unwrap();
    let level9 = compress(data, CompressionType::Zstd, 9).unwrap();

    // Both should decompress correctly
    assert_eq!(decompress(&level1, CompressionType::Zstd).unwrap(), data);
    assert_eq!(decompress(&level9, CompressionType::Zstd).unwrap(), data);
}

/// A frame decompressing to >16 MB must round-trip.
#[test]
fn test_lz4_large_frame_over_16mb_roundtrips() {
    // 20 MB of highly-compressible data.
    let size = 20 * 1024 * 1024;
    let mut data = Vec::with_capacity(size);
    let pattern = b"gst-plugin-zenoh-lz4-large-frame-";
    while data.len() < size {
        data.extend_from_slice(pattern);
    }
    data.truncate(size);

    let compressed = compress(&data, CompressionType::Lz4, 5).unwrap();
    let decompressed = decompress(&compressed, CompressionType::Lz4).unwrap();
    assert_eq!(decompressed.len(), data.len());
    assert_eq!(decompressed, data);
}

/// Higher LZ4 level must not produce *larger* output.
#[test]
fn test_lz4_higher_level_not_worse() {
    let mut data = Vec::new();
    for _ in 0..4096 {
        data.extend_from_slice(b"repeating compressible payload ");
    }
    let low = compress(&data, CompressionType::Lz4, 1).unwrap();
    let high = compress(&data, CompressionType::Lz4, 9).unwrap();
    assert!(
        high.len() <= low.len(),
        "level 9 ({}) should be <= level 1 ({})",
        high.len(),
        low.len()
    );
    assert_eq!(decompress(&high, CompressionType::Lz4).unwrap(), data);
}

/// A frame carries its own algorithm; `compress` output begins with the magic.
#[test]
fn test_frame_has_magic_header() {
    let framed = compress(b"some data to compress here", CompressionType::Zstd, 5).unwrap();
    assert_eq!(&framed[0..3], b"GZC");
    assert_eq!(framed[3], gstzenoh::compression::ALGO_ZSTD);
    assert_eq!(framed[4], gstzenoh::compression::FRAME_VERSION);
}

#[test]
fn algo_bytes_name_the_algorithms() {
    assert_eq!(algo_to_byte(CompressionType::Zstd), 1);
    assert_eq!(algo_to_byte(CompressionType::Lz4), 2);
    assert_eq!(algo_to_byte(CompressionType::Gzip), 3);
}

#[test]
fn decompress_reports_each_fault() {
    // Frame with a version this library does not know.
    let mut framed = compress(b"abcabcabcabc", CompressionType::Zstd, 3).unwrap();
    framed[4] = 9;
    match decompress(&framed, CompressionType::Zstd) {
        Err(CompressionError::DecompressionFailed(m)) => {
            assert_eq!(m, "unsupported compression frame version 9")
        }
        other => panic!("unexpected {:?}", other),
    }
    // Frame naming an unknown algorithm.
    let mut framed = compress(b"abcabcabcabc", CompressionType::Zstd, 3).unwrap();
    framed[3] = 7;
    match decompress(&framed, CompressionType::Zstd) {
        Err(CompressionError::UnsupportedType(m)) => {
            assert_eq!(m, "unknown compression algorithm byte 7")
        }
        other => panic!("unexpected {:?}", other),
    }
    // Too short to hold a header.
    match decompress(b"GZ", CompressionType::Gzip) {
        Err(CompressionError::DecompressionFailed(m)) => {
            assert_eq!(m, "compressed payload is missing the expected frame header")
        }
        other => panic!("unexpected {:?}", other),
    }
    // A level out of range.
    match compress(b"x", CompressionType::Lz4, 12) {
        Err(CompressionError::InvalidLevel(l)) => assert_eq!(l, 12),
        other => panic!("unexpected {:?}", other),
    }
}

#[test]
fn frame_decides_algorithm_not_declared_type() {
    // The frame names gzip; the declared type only says the payload is compressed.
    let data = b"frame carries its own algorithm".repeat(4);
    let framed = compress(&data, CompressionType::Gzip, 6).unwrap();
    assert_eq!(decompress(&framed, CompressionType::Zstd).unwrap(), data);
}

#[test]
fn compression_error_messages() {
    assert_eq!(
        CompressionError::InvalidLevel(-3).message(),
        "Invalid compression level: -3"
    );
    assert_eq!(
        CompressionError::DecompressionFailed("x".to_string()).message(),
        "Decompression failed: x"
    );
}
