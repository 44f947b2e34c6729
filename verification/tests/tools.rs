use fxfs::errors::FxfsError;
use fxfs::golden::{
    check_added, check_images, check_volume, has_fscrypt_file, has_second_volume, image_list,
    images_to_check, latest_image_filename, GoldenError, VolumeContent,
};
use fxfs::journal::Version;
use fxfs::lock_keys::LockKey;
use fxfs::object_record::ObjectDescriptor;
use fxfs::object_store::ObjectStore;
use fxfs::ops::{
    check_unlink, check_vacant, file_to_read, file_to_verify, format_line, node_to_change,
    print_ls, FileReader, ListEntry, OpsError, Walk,
};
use fxfs::root_volume::{
    list_volumes, objects_to_delete, OpenVolume, RootVolume, VolumeDirectory, VOLUMES_DIRECTORY,
};
use fxfs::store_info::StoreInfoV40;
use fxfs::text::{decimal, is_text_before, path_components, right_align, same_text, sort_texts};

fn strings(list: &[&str]) -> Vec<String> {
    list.iter().map(|s| s.to_string()).collect()
}

#[test]
fn numbers_and_columns() {
    assert_eq!(decimal(0), "0");
    assert_eq!(decimal(9876543210), "9876543210");
    assert_eq!(decimal(u64::MAX), u64::MAX.to_string());
    assert_eq!(right_align("abc", 5), "  abc");
    assert_eq!(right_align("abcdef", 5), "abcdef");
    assert!(same_text("abc", "abc"));
    assert!(!same_text("abc", "abd"));
    assert!(!same_text("abc", "ab"));
}

#[test]
fn parts_of_paths() {
    assert_eq!(path_components("some/test_file.txt"), strings(&["some", "test_file.txt"]));
    assert_eq!(path_components("//fscrypt///Straße.txt/"), strings(&["fscrypt", "Straße.txt"]));
    assert!(path_components("").is_empty());
    assert!(path_components("/").is_empty());
}

#[test]
fn names_are_sorted() {
    assert!(is_text_before("a", "b"));
    assert!(is_text_before("a", "aa"));
    assert!(!is_text_before("b", "a"));
    assert!(!is_text_before("a", "a"));
    assert!(is_text_before("z", "ß"));
    let mut names = strings(&["fxfs.9", "fxfs.10", "", "ß", "z", "fxfs.10"]);
    let sorted = sort_texts(names.clone());
    names.sort();
    assert_eq!(sorted, names);
}

#[test]
fn walking_paths() {
    let mut walk = Walk::new(2, "/some//dir");
    assert_eq!(walk.name(), Some("some"));
    assert!(walk.step(Some((10, ObjectDescriptor::Directory))).is_ok());
    assert_eq!(walk.dir(), 10);
    assert_eq!(walk.name(), Some("dir"));
    assert_eq!(
        walk.step(Some((11, ObjectDescriptor::File))).unwrap_err().message(),
        "Not a directory: dir"
    );
    assert_eq!(walk.step(None).unwrap_err().message(), "Not found: dir");
    assert!(walk.step(Some((11, ObjectDescriptor::Directory))).is_ok());
    assert_eq!(walk.name(), None);
    assert_eq!(walk.dir(), 11);
    assert_eq!(Walk::new(2, "/").name(), None);
}

#[test]
fn what_is_found_under_a_name() {
    let file = Some((5, ObjectDescriptor::File));
    let dir = Some((6, ObjectDescriptor::Directory));
    assert_eq!(file_to_read(file, "a/b").ok(), Some(5));
    assert_eq!(
        file_to_read(dir, "a/b").unwrap_err().message(),
        "Expected File. Found Directory"
    );
    assert_eq!(file_to_read(None, "a/b").unwrap_err().message(), "File not found: a/b");
    assert!(check_vacant(None, "b").is_ok());
    assert_eq!(check_vacant(dir, "b").unwrap_err().message(), "b already exists");
    assert!(check_unlink(file).is_ok());
    assert_eq!(check_unlink(None).unwrap_err().message(), "Object not found.");
    assert_eq!(file_to_verify(file, "b").ok(), Some(5));
    assert_eq!(file_to_verify(None, "b").unwrap_err().message(), "b does not exist");
    assert_eq!(node_to_change(dir), Ok(6));
    assert_eq!(node_to_change(None), Err(FxfsError::NotFound));
    assert_eq!(
        OpsError::ExpectedFile(ObjectDescriptor::Symlink).message(),
        "Expected File. Found Symlink"
    );
    assert_eq!(
        OpsError::ExpectedFile(ObjectDescriptor::Volume).message(),
        "Expected File. Found Volume"
    );
}

#[test]
fn listings() {
    assert_eq!(
        print_ls(&ListEntry::File { size: 1234, secs: 1_700_000_000, nanos: 5 }, "a.txt").unwrap(),
        "-rwx------    1 nobody   nogroup        1234 Nov 14 2023 22:13:20+00 a.txt"
    );
    assert_eq!(
        print_ls(&ListEntry::Directory, "dir").unwrap(),
        "d---------    1 nobody   nogroup           0 Jan 01 1970 00:00:00+00 dir"
    );
    assert_eq!(
        print_ls(
            &ListEntry::Symlink {
                link: b"to/\xff".to_vec(),
                now_secs: 951_782_400,
                now_nanos: 0
            },
            "link"
        )
        .unwrap(),
        "l---------    1 nobody   nogroup           0 Feb 29 2000 00:00:00+00 link -> to/\u{fffd}"
    );
    assert_eq!(
        print_ls(&ListEntry::File { size: 0, secs: i64::MAX as u64, nanos: 0 }, "late"),
        None
    );
    assert_eq!(print_ls(&ListEntry::File { size: 0, secs: 0, nanos: 2_000_000_000 }, "x"), None);
    // Short texts are aligned, long ones are not cut.
    assert_eq!(
        format_line(&ListEntry::File { size: 1234567890, secs: 0, nanos: 0 }, "now", "x"),
        "-rwx------    1 nobody   nogroup    1234567890          now x"
    );
}

#[test]
fn files_are_read_block_by_block() {
    let content: Vec<u8> = (0..10).collect();
    for block_size in 1..12 {
        let mut reader = FileReader::new(block_size);
        let mut offset = 0;
        loop {
            let end = std::cmp::min(offset + block_size, content.len());
            let block = content[offset..end].to_vec();
            offset = end;
            if !reader.push(&block) {
                break;
            }
        }
        assert_eq!(reader.out, content);
    }
}

#[test]
fn golden_images_have_a_name() {
    assert_eq!(
        latest_image_filename(&Version { major: 47, minor: 0 }),
        "fxfs_golden.47.0.img.zstd"
    );
    assert_eq!(
        latest_image_filename(&Version { major: 100, minor: 12 }),
        "fxfs_golden.100.12.img.zstd"
    );
}

#[test]
fn golden_images_to_check() {
    let latest = Version { major: 47, minor: 0 };
    let manifest =
        r#"["fxfs_golden.47.0.img.zstd", "fxfs_golden.38.0.img.zstd", "fxfs_golden.4.0.img.zstd"]"#;
    assert_eq!(
        check_images(manifest, &latest),
        Ok(strings(&[
            "fxfs_golden.38.0.img.zstd",
            "fxfs_golden.4.0.img.zstd",
            "fxfs_golden.47.0.img.zstd",
        ]))
    );
    assert_eq!(check_images("[\"a\", \"b\"]", &latest), Err(GoldenError::MissingLatest));
    assert_eq!(check_images("[]", &latest), Err(GoldenError::MissingLatest));
    assert_eq!(check_images("[1]", &latest), Err(GoldenError::Manifest));
    assert_eq!(check_images("{", &latest), Err(GoldenError::Manifest));
    assert_eq!(images_to_check(vec![], &latest), Err(GoldenError::MissingLatest));
}

#[test]
fn golden_images_are_listed_for_the_build() {
    let (text, names) =
        image_list(strings(&["b.img.zstd", "images.gni", "a.img.zstd", "zstd", ".zstd"]));
    assert_eq!(
        text,
        "fxfs_golden_images = [\n  \".zstd\",\n  \"a.img.zstd\",\n  \"b.img.zstd\",\n]\n"
    );
    assert_eq!(names.len(), 5);
    assert_eq!(image_list(vec![]).0, "fxfs_golden_images = [\n]\n");
}

#[test]
fn golden_images_are_checked() {
    let content = || VolumeContent {
        file: b"content.".to_vec(),
        verity: b"content.".to_vec(),
        deleted: false,
        fscrypt: None,
    };
    assert_eq!(check_volume(&content()), Ok(()));
    let fscrypt = Some(b"content.".to_vec());
    assert_eq!(check_volume(&VolumeContent { fscrypt, ..content() }), Ok(()));
    assert_eq!(
        check_volume(&VolumeContent { file: vec![], ..content() }),
        Err(GoldenError::FileContent)
    );
    assert_eq!(
        check_volume(&VolumeContent { verity: b"content!".to_vec(), ..content() }),
        Err(GoldenError::VerityContent)
    );
    assert_eq!(
        check_volume(&VolumeContent { deleted: true, ..content() }),
        Err(GoldenError::FoundDeleted)
    );
    assert_eq!(
        check_volume(&VolumeContent { fscrypt: Some(vec![]), ..content() }),
        Err(GoldenError::FscryptContent)
    );
    assert_eq!(check_added(&vec![0, 1, 2, 3, 4, 5]), Ok(()));
    assert_eq!(check_added(&vec![0, 1, 2, 3, 4]), Err(GoldenError::NewFileContent));
    assert!(has_second_volume(&Version { major: 38, minor: 0 }));
    assert!(!has_second_volume(&Version { major: 37, minor: 9 }));
    assert!(has_fscrypt_file(&Version { major: 47, minor: 0 }, true));
    assert!(!has_fscrypt_file(&Version { major: 47, minor: 0 }, false));
    assert!(!has_fscrypt_file(&Version { major: 46, minor: 0 }, true));
}

fn root_volume() -> RootVolume {
    RootVolume { root_store_object_id: 4, volume_directory: VolumeDirectory::new(20) }
}

#[test]
fn test_lookup_nonexistent_volume() {
    assert_eq!(root_volume().volume("vol", &vec![], true), Err(FxfsError::NotFound));
}

#[test]
fn test_add_volume() {
    let mut root = root_volume();
    assert_eq!(VOLUMES_DIRECTORY, "volumes");
    assert_eq!(
        root.new_volume_lock_keys().iter().copied().collect::<Vec<_>>(),
        vec![LockKey::object(4, 20)]
    );
    root.new_volume("vol", 50).unwrap();
    assert_eq!(root.new_volume("vol", 51), Err(FxfsError::AlreadyExists));
    root.new_volume("another", 51).unwrap();
    let parent = ObjectStore::new_root_parent(512, 3);
    let stores = vec![
        parent.new_child_store(51, [0; 16], None),
        parent.open(
            50,
            StoreInfoV40 {
                mutations_key: Some(fxfs::object_record::FxfsKey {
                    wrapping_key_id: 0,
                    key: [0; 48],
                }),
                ..StoreInfoV40::default()
            },
        ),
    ];
    assert_eq!(
        root.volume("vol", &stores, true),
        Ok(OpenVolume { store: 1, unlock: true })
    );
    assert_eq!(root.volume("vol", &stores, false), Err(FxfsError::AccessDenied));
    assert_eq!(
        root.volume("another", &stores, false),
        Ok(OpenVolume { store: 0, unlock: false })
    );
    assert_eq!(root.volume("vol", &vec![], true), Err(FxfsError::NotFound));
    // Volumes are listed in the order of their names.
    assert_eq!(list_volumes(root.volume_directory()), vec![51, 50]);
    root.volume_directory.add("dir", 60, ObjectDescriptor::Directory);
    assert_eq!(root.volume("dir", &stores, true), Err(FxfsError::Inconsistent));
    assert_eq!(root.delete_volume("dir"), Err(FxfsError::Inconsistent));
}

#[test]
fn test_delete_volume() {
    let mut root = root_volume();
    for (name, id) in [("b", 1), ("a", 2), ("c", 3)] {
        root.new_volume(name, id).unwrap();
    }
    assert_eq!(root.delete_volume("b"), Ok(1));
    assert_eq!(root.delete_volume("b"), Err(FxfsError::NotFound));
    assert_eq!(list_volumes(root.volume_directory()), vec![2, 3]);
    assert_eq!(root.volume_directory.lookup("c"), Some((3, ObjectDescriptor::Volume)));
    let info = StoreInfoV40 {
        layers: vec![10, 11],
        encrypted_mutations_object_id: 12,
        ..StoreInfoV40::default()
    };
    assert_eq!(objects_to_delete(&info, 1), vec![10, 11, 12, 1]);
    // The name can be used again.
    root.new_volume("b", 9).unwrap();
    assert_eq!(list_volumes(root.volume_directory()), vec![2, 9, 3]);
}
