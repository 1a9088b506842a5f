use qtcre::error::Error;
use qtcre::readers::RCCFileHeaderReader;

#[test]
fn should_error_on_invalid_magic_bytes() {
    assert!(matches!(
        RCCFileHeaderReader::new(&[0x71, 0x00, 0x65, 0x05, 0x00, 0x01, 0x02, 0x03]),
        Err(Error::InvalidHeaderMagic {
            received: [0x71, 0x00, 0x65, 0x05],
            expected: [0x71, 0x72, 0x65, 0x73]
        })
    ));
}

#[test]
fn should_error_when_buffer_is_too_small() {
    // short reads are structural: they reclassify as out-of-bounds
    assert!(matches!(
        RCCFileHeaderReader::new(&[0u8; 3]),
        Err(Error::OutOfBounds { .. })
    ));
    assert!(matches!(
        RCCFileHeaderReader::new(&[0x71, 0x72, 0x65, 0x73, 0x00]),
        Err(Error::OutOfBounds { .. })
    ));
    assert!(matches!(
        RCCFileHeaderReader::new(&[0x71, 0x72, 0x65, 0x73, 0x00, 0x01, 0x02, 0x03, 0x04]),
        Err(Error::OutOfBounds { .. })
    ));
}

#[test]
fn should_reject_unsupported_versions() {
    // a full header whose format version is 4
    assert!(matches!(
        RCCFileHeaderReader::new(&[
            0x71, 0x72, 0x65, 0x73, 0x00, 0x00, 0x00, 0x04, 0x00, 0x00, 0x00, 0x00, 0x00, 0x00,
            0x00, 0x00, 0x00, 0x00, 0x00, 0x00, 0x00, 0x00, 0x00, 0x00
        ]),
        Err(Error::UnsupportedVersion {
            received: 4,
            expected: 3
        })
    ));
}

#[test]
fn should_parse_file_header() {
    assert!(matches!(
        RCCFileHeaderReader::new(&[
            0x71, 0x72, 0x65, 0x73, 0x00, 0x00, 0x00, 0x03, 0x00, 0x00, 0xF6, 0x82, 0x00, 0x00,
            0x00, 0x18, 0x00, 0x00, 0xF6, 0x58, 0x00, 0x00, 0x00, 0x00
        ]),
        Ok(RCCFileHeaderReader {
            magic: [0x71, 0x72, 0x65, 0x73],
            format_version: 3,
            struct_offset: 0xF682,
            data_offset: 0x18,
            name_offset: 0xF658,
            overall_flags: Some(0x00),
        })
    ));
}
