use qtcre::readers::ResourceReader;
use qtcre::types::CompressionAlgorithm;
use qtcre::types::ResourceData;
use qtcre::types::ResourceFile;
use std::io::Write;

fn be16(v: u16) -> [u8; 2] {
    v.to_be_bytes()
}

fn be32(v: u32) -> [u8; 4] {
    v.to_be_bytes()
}

/// A format-version-1 image holding one file record with the given flags
/// and stored payload bytes.
fn build_file_image(flags: u16, payload: &[u8]) -> (Vec<u8>, usize, usize) {
    let mut names: Vec<u8> = Vec::new();
    names.extend_from_slice(&be16(1));
    names.extend_from_slice(&be32(qt_hash_of_f()));
    names.extend_from_slice(&be16('f' as u16));

    let mut records: Vec<u8> = Vec::new();
    records.extend_from_slice(&be32(0));
    records.extend_from_slice(&be16(flags));
    records.extend_from_slice(&be16(0));
    records.extend_from_slice(&be16(0));
    records.extend_from_slice(&be32(0));

    let name_offset = records.len();
    let data_offset = name_offset + names.len();
    let mut img = records;
    img.extend_from_slice(&names);
    img.extend_from_slice(&be32(payload.len() as u32));
    img.extend_from_slice(payload);
    (img, name_offset, data_offset)
}

fn qt_hash_of_f() -> u32 {
    qtcre::utils::qt_hash("f", 0)
}

#[test]
fn plain_payload_size_equals_data_length() {
    let (img, name_off, data_off) = build_file_image(0, b"hello world!");
    let reader = ResourceReader::from_bytes(&img, 0, name_off, data_off, 1).unwrap();
    let file = ResourceFile::new(0, &reader);
    assert_eq!(file.compression_algo().unwrap(), CompressionAlgorithm::Plain);
    let data = file.data().unwrap();
    assert!(matches!(data, ResourceData::Borrowed(_)));
    assert_eq!(data.as_slice(), b"hello world!");
    assert_eq!(file.size().unwrap(), data.as_slice().len() as u64);
}

#[test]
fn zlib_payload_roundtrips() {
    let plain = b"the quick brown fox jumps over the lazy dog, twice over";
    let mut enc = flate2::write::ZlibEncoder::new(Vec::new(), flate2::Compression::default());
    enc.write_all(plain).unwrap();
    let stream = enc.finish().unwrap();
    let mut payload = Vec::new();
    payload.extend_from_slice(&be32(plain.len() as u32));
    payload.extend_from_slice(&stream);

    let (img, name_off, data_off) = build_file_image(0x01, &payload);
    let reader = ResourceReader::from_bytes(&img, 0, name_off, data_off, 1).unwrap();
    let file = ResourceFile::new(0, &reader);
    assert_eq!(file.compression_algo().unwrap(), CompressionAlgorithm::Zlib);
    assert_eq!(file.size().unwrap(), plain.len() as u64);
    let data = file.data().unwrap();
    assert!(matches!(data, ResourceData::Owned(_)));
    assert_eq!(data.as_slice(), plain);
    assert_eq!(file.size().unwrap(), data.as_slice().len() as u64);
}

#[test]
fn zstd_payload_roundtrips() {
    let plain = b"zstandard compresses this sentence into a single frame";
    let mut payload: Vec<u8> = Vec::with_capacity(zstd_safe::compress_bound(plain.len()));
    zstd_safe::compress(&mut payload, plain, 3).expect("compression failed");

    let (img, name_off, data_off) = build_file_image(0x04, &payload);
    let reader = ResourceReader::from_bytes(&img, 0, name_off, data_off, 1).unwrap();
    let file = ResourceFile::new(0, &reader);
    assert_eq!(file.compression_algo().unwrap(), CompressionAlgorithm::Zstd);
    assert_eq!(file.size().unwrap(), plain.len() as u64);
    let data = file.data().unwrap();
    assert!(matches!(data, ResourceData::Owned(_)));
    assert_eq!(data.as_slice(), plain);
    assert_eq!(file.size().unwrap(), data.as_slice().len() as u64);
}

#[test]
fn zlib_wins_when_both_compression_bits_are_set() {
    let (img, name_off, data_off) = build_file_image(0x05, b"x");
    let reader = ResourceReader::from_bytes(&img, 0, name_off, data_off, 1).unwrap();
    let file = ResourceFile::new(0, &reader);
    assert_eq!(file.compression_algo().unwrap(), CompressionAlgorithm::Zlib);
}

#[test]
fn empty_payload_has_size_zero_whatever_the_flags_say() {
    let (img, name_off, data_off) = build_file_image(0x01, b"");
    let reader = ResourceReader::from_bytes(&img, 0, name_off, data_off, 1).unwrap();
    let file = ResourceFile::new(0, &reader);
    assert_eq!(file.size().unwrap(), 0);
    assert_eq!(file.data().unwrap().as_slice(), b"");
}

#[test]
fn corrupt_zlib_stream_fails_as_io() {
    let mut payload = Vec::new();
    payload.extend_from_slice(&be32(5));
    payload.extend_from_slice(b"\xde\xad\xbe\xef");
    let (img, name_off, data_off) = build_file_image(0x01, &payload);
    let reader = ResourceReader::from_bytes(&img, 0, name_off, data_off, 1).unwrap();
    let file = ResourceFile::new(0, &reader);
    assert!(matches!(file.data(), Err(qtcre::error::Error::IO { .. })));
}

#[test]
fn short_zlib_payload_fails_as_out_of_bounds() {
    let (img, name_off, data_off) = build_file_image(0x01, b"ab");
    let reader = ResourceReader::from_bytes(&img, 0, name_off, data_off, 1).unwrap();
    let file = ResourceFile::new(0, &reader);
    assert!(matches!(
        file.size(),
        Err(qtcre::error::Error::OutOfBounds { .. })
    ));
}

#[test]
fn zstd_frame_without_content_size_is_invalid_data() {
    // not a zstd frame at all: the frame header cannot be read
    let (img, name_off, data_off) = build_file_image(0x04, b"\x00\x01\x02\x03");
    let reader = ResourceReader::from_bytes(&img, 0, name_off, data_off, 1).unwrap();
    let file = ResourceFile::new(0, &reader);
    assert!(matches!(
        file.size(),
        Err(qtcre::error::Error::InvalidData { .. })
    ));
}

#[test]
fn out_of_range_timestamp_reads_as_absent() {
    // a version-3 record whose stored milliseconds exceed any representable date
    let bytes: &[u8] = &[
        0x00, 0x00, 0x00, 0x00, // Name offset
        0x00, 0x00, // Flags
        0x00, 0x00, // Territory
        0x00, 0x00, // Language
        0x00, 0x00, 0x00, 0x00, // Data offset
        0x7F, 0xFF, 0xFF, 0xFF, 0xFF, 0xFF, 0xFF, 0xFF, // Last modified date
        0x00, 0x01, // Name length
        0x00, 0x00, 0x00, 0x66, // Name hash
        0x00, 0x66, // "f"
        0x00, 0x00, 0x00, 0x00, // Data size
    ];
    let reader = ResourceReader::from_bytes(bytes, 0, 22, 30, 3).unwrap();
    let file = ResourceFile::new(0, &reader);
    assert_eq!(file.last_modified().unwrap(), None);
}
