use fxfs::format::DiskFormat;
use fxfs::fs_config::{
    BlobCompression, BlobEvictionPolicy, Blobfs, ComponentType, CompressionAlgorithm,
    EvictionPolicyOverride, F2fs, FSConfig, FormatOptions, Fvm, Fxfs, Gpt, Minfs, Options,
    StartOptions, BLOBFS_TYPE_GUID, DATA_TYPE_GUID, FS_COLLECTION_NAME, FVM_TYPE_GUID,
    FVM_TYPE_GUID_STR,
};
use fxfs::lexicographic::{compare, Comparison};

fn in_collection(component_type: &ComponentType, name: &str) -> bool {
    matches!(
        component_type,
        ComponentType::DynamicChild { collection_name } if collection_name == name
    )
}

#[test]
fn guids_of_partitions() {
    // The first three fields of a GUID are stored with the least significant byte first.
    let text = |guid: [u8; 16]| {
        let order = [3, 2, 1, 0, 5, 4, 7, 6, 8, 9, 10, 11, 12, 13, 14, 15];
        let mut text = String::new();
        for (i, at) in order.into_iter().enumerate() {
            if [4, 6, 8, 10].contains(&i) {
                text.push('-');
            }
            text.push_str(&format!("{:02x}", guid[at]));
        }
        text
    };
    assert_eq!(text(FVM_TYPE_GUID), FVM_TYPE_GUID_STR);
    assert_eq!(text(BLOBFS_TYPE_GUID), "2967380e-134c-4cbb-b6da-17e7ce1ca45d");
    assert_eq!(text(DATA_TYPE_GUID), "08185f0c-892d-428a-a789-dbeec8f55e6a");
}

#[test]
fn names_of_options() {
    assert_eq!(BlobCompression::from("zstd_chunked"), BlobCompression::ZSTDChunked);
    assert_eq!(BlobCompression::from("uncompressed"), BlobCompression::Uncompressed);
    assert_eq!(BlobCompression::from("lz4"), BlobCompression::ZSTDChunked);
    assert_eq!(BlobEvictionPolicy::from("never_evict"), BlobEvictionPolicy::NeverEvict);
    assert_eq!(BlobEvictionPolicy::from("evict_immediately"), BlobEvictionPolicy::EvictImmediately);
    assert_eq!(BlobEvictionPolicy::from(""), BlobEvictionPolicy::NeverEvict);
}

#[test]
fn blobfs_options() {
    let filesystem = Blobfs::new("device");
    assert_eq!(filesystem.block_connector, "device");
    assert!(in_collection(&filesystem.config.component_type, FS_COLLECTION_NAME));
    let options = filesystem.config.options();
    assert_eq!(options.component_name, "blobfs");
    assert_eq!(
        options.format_options,
        FormatOptions {
            verbose: None,
            deprecated_padded_blobfs_format: None,
            num_inodes: None,
            fvm_data_slices: None,
        }
    );
    assert_eq!(options.start_options.write_compression_level, None);
    assert_eq!(options.start_options.read_only, None);
    assert_eq!(
        options.start_options.write_compression_algorithm,
        Some(CompressionAlgorithm::ZstdChunked)
    );
    let config = Blobfs {
        num_inodes: 7,
        readonly: true,
        write_compression_algorithm: BlobCompression::Uncompressed,
        write_compression_level: Some(3),
        cache_eviction_policy_override: BlobEvictionPolicy::EvictImmediately,
        component_type: ComponentType::StaticChild,
        ..Blobfs::dynamic_child()
    };
    let options = config.options();
    assert_eq!(options.format_options.num_inodes, Some(7));
    assert_eq!(
        options.start_options,
        StartOptions {
            read_only: Some(true),
            write_compression_level: Some(3),
            write_compression_algorithm: Some(CompressionAlgorithm::Uncompressed),
            cache_eviction_policy_override: Some(EvictionPolicyOverride::EvictImmediately),
            ..StartOptions::default()
        }
    );
    assert!(matches!(options.component_type, ComponentType::StaticChild));
    assert!(!config.is_multi_volume());
    assert_eq!(config.disk_format(), DiskFormat::Blobfs);
}

#[test]
fn other_options() {
    let minfs = Minfs { fvm_data_slices: 2, fsck_after_every_transaction: true, ..Minfs::default() };
    let options = minfs.options();
    assert_eq!(options.component_name, "minfs");
    assert_eq!(options.format_options.fvm_data_slices, Some(2));
    assert_eq!(options.start_options.fsck_after_every_transaction, Some(true));
    assert_eq!(options.start_options.verbose, None);
    assert_eq!(options.start_options.read_only, None);
    let minfs = Minfs { verbose: true, readonly: true, ..Minfs::default() };
    assert_eq!(minfs.options().start_options.fsck_after_every_transaction, None);
    assert_eq!(minfs.options().format_options.verbose, Some(true));
    assert_eq!(minfs.options().start_options.read_only, Some(true));
    assert!(!options.reuse_component_after_serving && !minfs.is_multi_volume());
    assert_eq!(minfs.disk_format(), DiskFormat::Minfs);

    let fxfs = Fxfs { barriers_enabled: true, ..Fxfs::dynamic_child() };
    let options = fxfs.options();
    assert_eq!(options.component_name, "fxfs");
    assert_eq!(options.format_options.verbose, Some(false));
    assert_eq!(options.start_options.startup_profiling_seconds, Some(0));
    assert_eq!(options.start_options.barriers_enabled, Some(true));
    assert_eq!(options.start_options.inline_crypto_enabled, Some(false));
    assert_eq!(options.start_options.verbose, None);
    assert!(options.reuse_component_after_serving && fxfs.is_multi_volume());
    assert_eq!(fxfs.disk_format(), DiskFormat::Fxfs);

    let options = F2fs::default().options();
    assert_eq!(options.component_name, "f2fs");
    assert_eq!(options.format_options, FormatOptions::default());
    assert_eq!(options.start_options.read_only, Some(false));
    assert!(!F2fs::default().is_multi_volume());
    assert_eq!(F2fs::default().disk_format(), DiskFormat::F2fs);

    for (options, name) in [(Fvm::default().options(), "fvm2"), (Gpt::default().options(), "gpt2")] {
        assert_eq!(options.component_name, name);
        assert!(options.reuse_component_after_serving);
        assert_eq!(options.start_options, StartOptions::default());
        assert!(in_collection(&options.component_type, "fs-collection"));
    }
    assert!(Fvm::default().is_multi_volume() && Gpt::default().is_multi_volume());
    assert_eq!(Fvm::default().disk_format(), DiskFormat::Fvm);
    assert_eq!(Gpt::default().disk_format(), DiskFormat::Gpt);
}

#[test]
fn configurations_have_defaults() {
    struct Custom;
    impl FSConfig for Custom {
        fn options(&self) -> Options {
            Minfs::default().options()
        }
    }
    assert!(!Custom.is_multi_volume());
    assert_eq!(Custom.disk_format(), DiskFormat::Unknown);
}

#[test]
fn sequences_are_compared() {
    let pairs = [
        (vec![], vec![], Comparison::Same),
        (vec![], vec![0], Comparison::Before),
        (vec![1, 2], vec![1, 2], Comparison::Same),
        (vec![1, 2], vec![1, 3], Comparison::Before),
        (vec![2], vec![1, 3], Comparison::After),
        (vec![1, 3, 0], vec![1, 3], Comparison::After),
    ];
    for (a, b, expected) in pairs {
        assert_eq!(compare(&a, &b), expected);
    }
}
