use qtcre::error::Error;
use qtcre::error::OffsetName;
use qtcre::readers::ResourceReader;

#[test]
fn out_of_image_offsets_are_rejected_in_order() {
    let bytes: &[u8] = &[0u8; 16];
    assert!(matches!(
        ResourceReader::from_bytes(bytes, 16, 0, 0, 1),
        Err(Error::InvalidOffset {
            name: OffsetName::StructOffset,
            received: 16,
            expected: 16
        })
    ));
    assert!(matches!(
        ResourceReader::from_bytes(bytes, 0, 99, 0, 1),
        Err(Error::InvalidOffset {
            name: OffsetName::NameOffset,
            received: 99,
            expected: 16
        })
    ));
    assert!(matches!(
        ResourceReader::from_bytes(bytes, 0, 0, 16, 1),
        Err(Error::InvalidOffset {
            name: OffsetName::DataOffset,
            received: 16,
            expected: 16
        })
    ));
}

#[test]
fn unsupported_versions_are_rejected() {
    let bytes: &[u8] = &[0u8; 16];
    assert!(matches!(
        ResourceReader::from_bytes(bytes, 0, 0, 0, 4),
        Err(Error::UnsupportedVersion {
            received: 4,
            expected: 3
        })
    ));
    assert!(ResourceReader::from_bytes(bytes, 0, 0, 0, 3).is_ok());
}

#[test]
fn a_file_at_the_root_is_invalid_data() {
    // a single record whose directory bit is clear
    let bytes: &[u8] = &[
        0x00, 0x00, 0x00, 0x00, // Name offset
        0x00, 0x00, // Flags: a file
        0x00, 0x00, 0x00, 0x00, // Territory + language
        0x00, 0x00, 0x00, 0x00, // Data offset
        0x00, 0x01, // Name length
        0x00, 0x00, 0x00, 0x66, // Name hash
        0x00, 0x66, // "f"
    ];
    let reader = ResourceReader::from_bytes(bytes, 0, 14, 14, 1).unwrap();
    assert!(matches!(
        reader.find("/anything"),
        Err(Error::InvalidData { .. })
    ));
    assert!(matches!(reader.find("/"), Err(Error::InvalidData { .. })));
}

#[test]
fn truncated_records_are_out_of_bounds() {
    // the root claims a child, but the record table ends before it
    let bytes: &[u8] = &[
        0x00, 0x00, 0x00, 0x00, // Name offset
        0x00, 0x02, // Flags: a directory
        0x00, 0x00, 0x00, 0x01, // Child count
        0x00, 0x00, 0x00, 0x64, // Child offset: far past the record table
        0x00, 0x00, // Name length (the root's empty name)
        0x00, 0x00, 0x00, 0x00, // Name hash
    ];
    let reader = ResourceReader::from_bytes(bytes, 0, 14, 14, 1).unwrap();
    assert!(matches!(
        reader.find("/missing"),
        Err(Error::OutOfBounds { .. })
    ));
}

#[test]
fn invalid_utf16_names_are_invalid_data() {
    // the root directory's name is a lone high surrogate
    let bytes: &[u8] = &[
        0x00, 0x00, 0x00, 0x00, // Name offset
        0x00, 0x02, // Flags: a directory
        0x00, 0x00, 0x00, 0x00, // Child count
        0x00, 0x00, 0x00, 0x00, // Child offset
        0x00, 0x01, // Name length
        0x00, 0x00, 0x00, 0x00, // Name hash
        0xD8, 0x00, // a high surrogate with nothing after it
    ];
    let reader = ResourceReader::from_bytes(bytes, 0, 14, 14, 1).unwrap();
    let root = match reader.find("/").unwrap().unwrap() {
        qtcre::types::Resource::Directory(d) => d,
        other => panic!("expected the root directory, got {other:?}"),
    };
    assert!(matches!(root.name(), Err(Error::InvalidData { .. })));
}

#[test]
fn names_outside_the_basic_plane_decode() {
    // a directory whose name is the single character U+1D11E
    let bytes: &[u8] = &[
        0x00, 0x00, 0x00, 0x00, // Name offset
        0x00, 0x02, // Flags: a directory
        0x00, 0x00, 0x00, 0x00, // Child count
        0x00, 0x00, 0x00, 0x00, // Child offset
        0x00, 0x02, // Name length, in 16-bit units
        0x00, 0x0E, 0x60, 0x5E, // Name hash
        0xD8, 0x34, 0xDD, 0x1E, // the surrogate pair
    ];
    let reader = ResourceReader::from_bytes(bytes, 0, 14, 14, 1).unwrap();
    let root = match reader.find("/").unwrap().unwrap() {
        qtcre::types::Resource::Directory(d) => d,
        other => panic!("expected the root directory, got {other:?}"),
    };
    assert_eq!(root.name().unwrap(), "\u{1D11E}");
}

#[test]
fn from_rcc_validates_decoded_offsets() {
    // a well-formed version-1 header whose struct offset points past the end
    let mut bytes = Vec::new();
    bytes.extend_from_slice(b"qres");
    bytes.extend_from_slice(&1u32.to_be_bytes());
    bytes.extend_from_slice(&500u32.to_be_bytes()); // struct offset
    bytes.extend_from_slice(&0u32.to_be_bytes()); // data offset
    bytes.extend_from_slice(&0u32.to_be_bytes()); // name offset
    assert!(matches!(
        ResourceReader::from_rcc(&bytes),
        Err(Error::InvalidOffset {
            name: OffsetName::StructOffset,
            received: 500,
            expected: 20
        })
    ));
}
