//! A buffer encoded by the sink's logic and decoded by the source's logic
//! comes back as it was sent, with and without compression.

use gstzenoh::compression::CompressionType;
use gstzenoh::metadata::{BufferFlags, BufferTiming};
use gstzenoh::zenohsink::encode_buffer;
use gstzenoh::zenohsrc::process_sample;

/// Generate test data with a recognizable pattern
fn generate_test_data(size: usize) -> Vec<u8> {
    let mut data = Vec::with_capacity(size);
    for i in 0..size {
        data.push(((i % 256) ^ ((i / 256) % 256)) as u8);
    }
    data
}

fn compression_roundtrip_test(compression: CompressionType, level: i32, data_size: usize) {
    let data = generate_test_data(data_size);
    let timing = BufferTiming {
        pts: Some(123),
        dts: None,
        duration: None,
        offset: u64::MAX,
        offset_end: u64::MAX,
        flags: BufferFlags::empty(),
    };
    let sent = encode_buffer(&data, timing, None, true, compression, level);
    let received = process_sample(sent.attachment.as_deref(), &sent.payload, true, None)
        .ok()
        .expect("sample decodes");
    assert_eq!(
        received.data, data,
        "Data mismatch for {:?} compression",
        compression
    );
    assert_eq!(received.timing.pts, Some(123));
}

#[test]
fn test_no_compression_roundtrip() {
    compression_roundtrip_test(CompressionType::Uncompressed, 1, 1024);
}

#[test]
fn test_zstd_compression_roundtrip() {
    compression_roundtrip_test(CompressionType::Zstd, 3, 4096);
}

#[test]
fn test_zstd_compression_level_1() {
    compression_roundtrip_test(CompressionType::Zstd, 1, 8192);
}

#[test]
fn test_zstd_compression_level_9() {
    compression_roundtrip_test(CompressionType::Zstd, 9, 8192);
}

#[test]
fn test_lz4_compression_roundtrip() {
    compression_roundtrip_test(CompressionType::Lz4, 1, 4096);
}

#[test]
fn test_gzip_compression_roundtrip() {
    compression_roundtrip_test(CompressionType::Gzip, 6, 4096);
}

#[test]
fn test_zstd_large_data() {
    compression_roundtrip_test(CompressionType::Zstd, 3, 64 * 1024); // 64KB
}
