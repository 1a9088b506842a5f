use qtcre::readers::ResourceReader;
use qtcre::types::CompressionAlgorithm;
use qtcre::types::Language;
use qtcre::types::ResourceDirectory;
use qtcre::types::ResourceFile;
use qtcre::types::Territory;

#[test]
fn dir_should_correctly_read_resource() {
    let bytes: &[u8] = &[
        0x00, 0x00, 0x00, 0x00, // Name offset
        0x00, 0x02, // Flags
        0x00, 0x00, 0x00, 0x07, // Child count
        0x00, 0x00, 0x00, 0xAF, // Child offset,
        0xFF, 0xFF, // Spacing
        0x00, 0x06, // Name length
        0x07, 0x03, 0x7D, 0xC3, // Name hash
        0x00, 0x69, 0x00, 0x6D, 0x00, 0x61, 0x00, 0x67, 0x00, 0x65, 0x00,
        0x73, // "images" string
        0xFF, 0xFF, // Spacing
        0x00, 0x00, // Data
    ];

    let reader = ResourceReader::from_bytes(bytes, 0, 16, 36, 3).expect("Failed to create reader");
    let resource = ResourceDirectory::new(0, &reader);

    let name = resource.name();
    let child_count = resource.child_count();
    let child_offset = resource.child_offset();

    assert!(name.is_ok());
    assert_eq!(name.unwrap(), "images");

    assert!(child_count.is_ok());
    assert_eq!(child_count.unwrap(), 0x07);

    assert!(child_offset.is_ok());
    assert_eq!(child_offset.unwrap(), 0xAF);
}

#[test]
fn file_should_correctly_read_resource() {
    let bytes: &[u8] = &[
        0x00, 0x00, 0x00, 0x00, // Name offset
        0x00, 0x00, // Flags
        0x00, 0x02, // Territory
        0x00, 0x3B, // Language
        0x00, 0x00, 0x00, 0x05, // Data offset
        0x00, 0x00, 0x00, 0x00, 0x45, 0xEF, 0x51, 0x6C, // Last modified date
        0xFF, 0xFF, // Spacing
        0x00, 0x09, // Name length
        0x08, 0x2F, 0xA5, 0x07, // name hash
        0x00, 0x73, 0x00, 0x6D, 0x00, 0x61, 0x00, 0x6C, 0x00, 0x6C, 0x00, 0x2E, 0x00, 0x6A, 0x00,
        0x70, 0x00, 0x67, // "small.jpg"
        0xFF, 0xFF, // Spacing
        0x00, 0x00, 0x00, 0x00, 0x00, // Data spacing
        0x00, 0x00, 0x00, 0x0C, // Data size
        0x68, 0x65, 0x6c, 0x6c, 0x6f, 0x20, 0x77, 0x6f, 0x72, 0x6c, 0x64,
        0x21, // "hello world!"
    ];

    let reader = ResourceReader::from_bytes(bytes, 0, 24, 50, 3).expect("Failed to create reader");
    let resource = ResourceFile::new(0, &reader);

    let name = resource.name();
    let compression = resource.compression_algo();
    let territory = resource.territory();
    let language = resource.language();
    let last_modified = resource.last_modified();
    let data_offset = resource.data_offset();
    let data = resource.raw_data();

    assert!(name.is_ok());
    assert_eq!(name.unwrap(), "small.jpg");

    assert!(compression.is_ok());
    assert_eq!(compression.unwrap(), CompressionAlgorithm::Plain);

    assert!(territory.is_ok());
    assert_eq!(territory.unwrap(), Territory { code: 0x02 });

    assert!(language.is_ok());
    assert_eq!(language.unwrap(), Language { code: 0x3B });

    assert!(last_modified.is_ok());
    let last_modified = last_modified.unwrap();
    assert!(last_modified.is_some());
    assert_eq!(last_modified.unwrap().timestamp_millis(), 1173311852);

    assert!(data_offset.is_ok());
    assert_eq!(data_offset.unwrap(), 0x05);

    assert!(data.is_ok());
    assert_eq!(
        data.unwrap(),
        &[0x68, 0x65, 0x6c, 0x6c, 0x6f, 0x20, 0x77, 0x6f, 0x72, 0x6c, 0x64, 0x21]
    )
}
