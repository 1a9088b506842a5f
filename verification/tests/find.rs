use qtcre::readers::ResourceReader;
use qtcre::types::Resource;
use qtcre::utils::qt_hash;

fn be16(v: u16) -> [u8; 2] {
    v.to_be_bytes()
}

fn be32(v: u32) -> [u8; 4] {
    v.to_be_bytes()
}

fn push_name(table: &mut Vec<u8>, name: &str) -> u32 {
    let rel = table.len() as u32;
    let units: Vec<u16> = name.encode_utf16().collect();
    table.extend_from_slice(&be16(units.len() as u16));
    table.extend_from_slice(&be32(qt_hash(name, 0)));
    for u in units {
        table.extend_from_slice(&be16(u));
    }
    rel
}

/// A format-version-1 image: a root directory holding `images`, which holds
/// `small.jpg` (12 plain bytes) and `zzz.bin` (2 plain bytes), hash-sorted.
fn build_tree_image() -> (Vec<u8>, usize, usize) {
    let mut names: Vec<u8> = Vec::new();
    let root_rel = push_name(&mut names, "");
    let images_rel = push_name(&mut names, "images");
    let small_rel = push_name(&mut names, "small.jpg");
    let zzz_rel = push_name(&mut names, "zzz.bin");

    let mut data: Vec<u8> = Vec::new();
    let small_data_rel = data.len() as u32;
    data.extend_from_slice(&be32(12));
    data.extend_from_slice(b"hello world!");
    let zzz_data_rel = data.len() as u32;
    data.extend_from_slice(&be32(2));
    data.extend_from_slice(b"ZZ");

    // children of `images`, ordered by ascending name hash
    let mut files = [
        (small_rel, small_data_rel, qt_hash("small.jpg", 0)),
        (zzz_rel, zzz_data_rel, qt_hash("zzz.bin", 0)),
    ];
    files.sort_by_key(|f| f.2);

    let mut records: Vec<u8> = Vec::new();
    // record 0: the root directory, one child at index 1
    records.extend_from_slice(&be32(root_rel));
    records.extend_from_slice(&be16(0x02));
    records.extend_from_slice(&be32(1));
    records.extend_from_slice(&be32(1));
    // record 1: `images`, two children at indexes 2..4
    records.extend_from_slice(&be32(images_rel));
    records.extend_from_slice(&be16(0x02));
    records.extend_from_slice(&be32(2));
    records.extend_from_slice(&be32(2));
    // records 2 and 3: the files, in hash order
    for (name_rel, data_rel, _) in files {
        records.extend_from_slice(&be32(name_rel));
        records.extend_from_slice(&be16(0x00));
        records.extend_from_slice(&be16(0));
        records.extend_from_slice(&be16(0));
        records.extend_from_slice(&be32(data_rel));
    }

    let name_offset = records.len();
    let data_offset = name_offset + names.len();
    let mut img = records;
    img.extend_from_slice(&names);
    img.extend_from_slice(&data);
    (img, name_offset, data_offset)
}

#[test]
fn find_resolves_file_paths() {
    let (img, name_off, data_off) = build_tree_image();
    let reader = ResourceReader::from_bytes(&img, 0, name_off, data_off, 1).unwrap();

    for path in [
        "/images/small.jpg",
        "images/small.jpg",
        "images\\small.jpg",
        "C:\\images\\small.jpg",
    ] {
        let found = reader.find(path).unwrap();
        match found {
            Some(Resource::File(f)) => {
                assert_eq!(f.name().unwrap(), "small.jpg");
                assert_eq!(f.absolute_path, "/images/small.jpg");
                assert_eq!(f.raw_data().unwrap(), b"hello world!");
            }
            other => panic!("expected a file for {path}, got {other:?}"),
        }
    }
}

#[test]
fn find_resolves_directories_and_root() {
    let (img, name_off, data_off) = build_tree_image();
    let reader = ResourceReader::from_bytes(&img, 0, name_off, data_off, 1).unwrap();

    match reader.find("/images").unwrap() {
        Some(Resource::Directory(d)) => {
            assert_eq!(d.name().unwrap(), "images");
            assert_eq!(d.absolute_path, "/images");
            assert_eq!(d.child_count().unwrap(), 2);
        }
        other => panic!("expected a directory, got {other:?}"),
    }

    match reader.find("/").unwrap() {
        Some(Resource::Directory(d)) => {
            assert_eq!(d.absolute_path, "/");
        }
        other => panic!("expected the root, got {other:?}"),
    }
}

#[test]
fn find_misses_and_refuses_descent_through_files() {
    let (img, name_off, data_off) = build_tree_image();
    let reader = ResourceReader::from_bytes(&img, 0, name_off, data_off, 1).unwrap();

    assert!(reader.find("/nope").unwrap().is_none());
    assert!(reader.find("/images/nope").unwrap().is_none());
    assert!(reader.find("/images/small.jpg/extra").unwrap().is_none());
}

#[test]
fn find_is_a_pure_function_of_image_and_path() {
    let (img, name_off, data_off) = build_tree_image();
    let reader = ResourceReader::from_bytes(&img, 0, name_off, data_off, 1).unwrap();
    let again = ResourceReader::from_bytes(&img, 0, name_off, data_off, 1).unwrap();

    for path in ["/images/small.jpg", "/images", "/nope", "/"] {
        let a = reader.find(path).unwrap();
        let b = reader.find(path).unwrap();
        let c = again.find(path).unwrap();
        for other in [&b, &c] {
            match (&a, other) {
                (None, None) => {}
                (Some(x), Some(y)) => {
                    assert_eq!(x.is_dir(), y.is_dir());
                    assert_eq!(x.name().unwrap(), y.name().unwrap());
                    assert_eq!(x.hash().unwrap(), y.hash().unwrap());
                }
                _ => panic!("outcomes differ for {path}"),
            }
        }
    }
}

#[test]
fn found_resource_hash_is_the_segment_hash() {
    let (img, name_off, data_off) = build_tree_image();
    let reader = ResourceReader::from_bytes(&img, 0, name_off, data_off, 1).unwrap();

    for (path, segment) in [
        ("/images", "images"),
        ("/images/small.jpg", "small.jpg"),
        ("/images/zzz.bin", "zzz.bin"),
    ] {
        let found = reader.find(path).unwrap().unwrap();
        assert_eq!(found.hash().unwrap(), qt_hash(segment, 0));
    }
}

#[test]
fn child_hashes_are_sorted_and_names_match_paths() {
    let (img, name_off, data_off) = build_tree_image();
    let reader = ResourceReader::from_bytes(&img, 0, name_off, data_off, 1).unwrap();

    let images = match reader.find("/images").unwrap() {
        Some(Resource::Directory(d)) => d,
        other => panic!("expected a directory, got {other:?}"),
    };
    let children = images.children().unwrap();
    assert_eq!(children.len(), 2);
    let mut last_hash = 0u32;
    for child in &children {
        let h = child.hash().unwrap();
        assert!(last_hash <= h);
        last_hash = h;
        // each child's stamped path ends in its own name
        let name = child.name().unwrap();
        let path = match child {
            Resource::File(f) => f.absolute_path.clone(),
            Resource::Directory(d) => d.absolute_path.clone(),
        };
        assert_eq!(path, format!("/images/{name}"));
        let refound = reader.find(&path).unwrap().unwrap();
        assert_eq!(refound.name().unwrap(), name);
    }
}
