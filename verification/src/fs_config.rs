//! How the filesystems that are managed are launched, formatted and started.
use crate::format::DiskFormat;
use crate::text::same_text;
use vstd::prelude::*;

verus! {

/// The type of a partition for blobfs.
pub const BLOBFS_TYPE_GUID: [u8; 16] = [
    0x0e, 0x38, 0x67, 0x29, 0x4c, 0x13, 0xbb, 0x4c, 0xb6, 0xda, 0x17, 0xe7, 0xce, 0x1c, 0xa4, 0x5d,
];

/// The type of a partition for data.
pub const DATA_TYPE_GUID: [u8; 16] = [
    0x0c, 0x5f, 0x18, 0x08, 0x2d, 0x89, 0x8a, 0x42, 0xa7, 0x89, 0xdb, 0xee, 0xc8, 0xf5, 0x5e, 0x6a,
];

/// The type of a partition that is managed by FVM.
pub const FVM_TYPE_GUID: [u8; 16] = [
    0xb8, 0x7c, 0xfd, 0x49, 0x15, 0xdf, 0x73, 0x4e, 0xb9, 0xd9, 0x99, 0x20, 0x70, 0x12, 0x7f, 0x0f,
];

pub const FVM_TYPE_GUID_STR: &'static str = "49fd7cb8-df15-4e73-b9d9-992070127f0f";

/// The collection in which filesystems are launched.
pub const FS_COLLECTION_NAME: &'static str = "fs-collection";

/// How a filesystem is launched.
pub enum ComponentType {
    /// Launch the filesystem as a static child, using the configured name in the options as the
    /// child name. If the child doesn't exist, this will fail.
    StaticChild,
    /// Launch the filesystem as a dynamic child, in the configured collection. By default, the
    /// collection is "fs-collection".
    DynamicChild { collection_name: String },
}

impl ComponentType {
    /// Both are launched in the same way.
    pub open spec fn same(self, other: ComponentType) -> bool {
        match (self, other) {
            (ComponentType::StaticChild, ComponentType::StaticChild) => true,
            (
                ComponentType::DynamicChild { collection_name: a },
                ComponentType::DynamicChild { collection_name: b },
            ) => a@ == b@,
            _ => false,
        }
    }

    /// Launched as a dynamic child in the default collection.
    pub open spec fn is_default(self) -> bool {
        self matches ComponentType::DynamicChild { collection_name } && collection_name@
            == "fs-collection"@
    }

    pub fn duplicate(&self) -> (copy: Self)
        ensures
            copy.same(*self),
    {
        match self {
            ComponentType::StaticChild => ComponentType::StaticChild,
            ComponentType::DynamicChild { collection_name } => ComponentType::DynamicChild {
                collection_name: collection_name.clone(),
            },
        }
    }
}

impl Default for ComponentType {
    fn default() -> (component_type: Self)
        ensures
            component_type.is_default(),
    {
        ComponentType::DynamicChild { collection_name: "fs-collection".to_owned() }
    }
}

/// The compression that a filesystem is told to use.
#[derive(Clone, Copy, Debug, PartialEq, Eq, Structural)]
pub enum CompressionAlgorithm {
    ZstdChunked,
    Uncompressed,
}

/// The eviction policy that a filesystem is told to use.
#[derive(Clone, Copy, Debug, PartialEq, Eq, Structural)]
pub enum EvictionPolicyOverride {
    NeverEvict,
    EvictImmediately,
}

/// Format options as defined by the startup protocol; what is none is not set.
#[derive(Clone, Copy, Debug, PartialEq, Eq, Structural)]
pub struct FormatOptions {
    pub verbose: Option<bool>,
    pub deprecated_padded_blobfs_format: Option<bool>,
    pub num_inodes: Option<u64>,
    pub fvm_data_slices: Option<u32>,
}

/// Start options as defined by the startup protocol; what is none is not set.
#[derive(Clone, Copy, Debug, PartialEq, Eq, Structural)]
pub struct StartOptions {
    pub read_only: Option<bool>,
    pub verbose: Option<bool>,
    pub fsck_after_every_transaction: Option<bool>,
    pub write_compression_algorithm: Option<CompressionAlgorithm>,
    pub write_compression_level: Option<i32>,
    pub cache_eviction_policy_override: Option<EvictionPolicyOverride>,
    pub startup_profiling_seconds: Option<u32>,
    pub inline_crypto_enabled: Option<bool>,
    pub barriers_enabled: Option<bool>,
}

impl FormatOptions {
    /// Nothing is set.
    pub open spec fn unset() -> FormatOptions {
        FormatOptions {
            verbose: None,
            deprecated_padded_blobfs_format: None,
            num_inodes: None,
            fvm_data_slices: None,
        }
    }
}

impl StartOptions {
    /// Nothing is set.
    pub open spec fn unset() -> StartOptions {
        StartOptions {
            read_only: None,
            verbose: None,
            fsck_after_every_transaction: None,
            write_compression_algorithm: None,
            write_compression_level: None,
            cache_eviction_policy_override: None,
            startup_profiling_seconds: None,
            inline_crypto_enabled: None,
            barriers_enabled: None,
        }
    }
}

impl Default for FormatOptions {
    fn default() -> (options: Self)
        ensures
            options == FormatOptions::unset(),
    {
        FormatOptions {
            verbose: None,
            deprecated_padded_blobfs_format: None,
            num_inodes: None,
            fvm_data_slices: None,
        }
    }
}

impl Default for StartOptions {
    fn default() -> (options: Self)
        ensures
            options == StartOptions::unset(),
    {
        StartOptions {
            read_only: None,
            verbose: None,
            fsck_after_every_transaction: None,
            write_compression_algorithm: None,
            write_compression_level: None,
            cache_eviction_policy_override: None,
            startup_profiling_seconds: None,
            inline_crypto_enabled: None,
            barriers_enabled: None,
        }
    }
}

/// How to run a filesystem.
pub struct Options {
    /// For static children, the name specifies the name of the child.  For dynamic children, the
    /// component URL is "fuchsia-boot:///{component-name}#meta/{component-name}.cm" or
    /// "#meta/{component-name}.cm".
    pub component_name: &'static str,
    /// It should be possible to reuse components after serving them, but it's not universally
    /// supported.
    pub reuse_component_after_serving: bool,
    /// Format options as defined by the startup protocol
    pub format_options: FormatOptions,
    /// Start options as defined by the startup protocol
    pub start_options: StartOptions,
    /// Whether to launch this filesystem as a dynamic or static child.
    pub component_type: ComponentType,
}

/// Describes the configuration for a particular filesystem.
pub trait FSConfig {
    /// Returns the options specifying how to run this filesystem.
    fn options(&self) -> Options;

    /// Whether the filesystem supports multiple volumes.
    fn is_multi_volume(&self) -> (multi: bool)
        default_ensures
            !multi,
    {
        false
    }

    fn disk_format(&self) -> (format: DiskFormat)
        default_ensures
            format == DiskFormat::Unknown,
    {
        DiskFormat::Unknown
    }
}

/// A block device that is managed with a configuration.
pub struct Filesystem<B, C> {
    pub block_connector: B,
    pub config: C,
}

/// Layout of blobs in blobfs
#[derive(Clone, Copy, Debug, PartialEq, Eq, Structural)]
pub enum BlobLayout {
    /// Merkle tree is stored in a separate block. This is deprecated and used only on Astro
    /// devices (it takes more space).
    DeprecatedPadded,
    /// Merkle tree is appended to the last block of data
    Compact,
}

/// Compression used for blobs in blobfs
#[derive(Clone, Copy, Debug, PartialEq, Eq, Structural)]
pub enum BlobCompression {
    ZSTDChunked,
    Uncompressed,
}

impl Default for BlobCompression {
    fn default() -> (compression: Self)
        ensures
            compression == BlobCompression::ZSTDChunked,
    {
        BlobCompression::ZSTDChunked
    }
}

impl From<&str> for BlobCompression {
    fn from(value: &str) -> (compression: Self) {
        if same_text(value, "zstd_chunked") {
            BlobCompression::ZSTDChunked
        } else if same_text(value, "uncompressed") {
            BlobCompression::Uncompressed
        } else {
            BlobCompression::default()
        }
    }
}

impl vstd::std_specs::convert::FromSpecImpl<&str> for BlobCompression {
    open spec fn obeys_from_spec() -> bool {
        true
    }

    open spec fn from_spec(value: &str) -> Self {
        if value@ != "zstd_chunked"@ && value@ == "uncompressed"@ {
            BlobCompression::Uncompressed
        } else {
            BlobCompression::ZSTDChunked
        }
    }
}

/// Eviction policy used for blobs in blobfs
#[derive(Clone, Copy, Debug, PartialEq, Eq, Structural)]
pub enum BlobEvictionPolicy {
    NeverEvict,
    EvictImmediately,
}

impl Default for BlobEvictionPolicy {
    fn default() -> (policy: Self)
        ensures
            policy == BlobEvictionPolicy::NeverEvict,
    {
        BlobEvictionPolicy::NeverEvict
    }
}

impl From<&str> for BlobEvictionPolicy {
    fn from(value: &str) -> (policy: Self) {
        if same_text(value, "never_evict") {
            BlobEvictionPolicy::NeverEvict
        } else if same_text(value, "evict_immediately") {
            BlobEvictionPolicy::EvictImmediately
        } else {
            BlobEvictionPolicy::default()
        }
    }
}

impl vstd::std_specs::convert::FromSpecImpl<&str> for BlobEvictionPolicy {
    open spec fn obeys_from_spec() -> bool {
        true
    }

    open spec fn from_spec(value: &str) -> Self {
        if value@ != "never_evict"@ && value@ == "evict_immediately"@ {
            BlobEvictionPolicy::EvictImmediately
        } else {
            BlobEvictionPolicy::NeverEvict
        }
    }
}

/// How a flag is handed on: it is not set unless it is true.
pub open spec fn spec_set_flag(flag: bool) -> Option<bool> {
    if flag {
        Some(true)
    } else {
        None
    }
}

fn set_flag(flag: bool) -> (option: Option<bool>)
    ensures
        option == spec_set_flag(flag),
{
    if flag {
        Some(true)
    } else {
        None
    }
}

/// Blobfs Filesystem Configuration
/// If fields are None or false, they will not be set in arguments.
pub struct Blobfs {
    pub verbose: bool,
    pub deprecated_padded_blobfs_format: bool,
    pub num_inodes: u64,
    pub readonly: bool,
    pub write_compression_algorithm: BlobCompression,
    pub write_compression_level: Option<i32>,
    pub cache_eviction_policy_override: BlobEvictionPolicy,
    pub component_type: ComponentType,
}

impl Blobfs {
    /// The default configuration.
    pub open spec fn is_default(self) -> bool {
        &&& self.component_type.is_default()
        &&& self.verbose == false
        &&& self.deprecated_padded_blobfs_format == false
        &&& self.num_inodes == 0
        &&& self.readonly == false
        &&& self.write_compression_algorithm == BlobCompression::ZSTDChunked
        &&& self.write_compression_level is None
        &&& self.cache_eviction_policy_override == BlobEvictionPolicy::NeverEvict
    }

    /// Manages a block device using the default configuration.
    pub fn new<B>(block_connector: B) -> (filesystem: Filesystem<B, Blobfs>)
        ensures
            filesystem.block_connector == block_connector,
            filesystem.config.is_default(),
    {
        Filesystem { block_connector, config: Blobfs::default() }
    }

    /// Launch blobfs, with the default configuration, as a dynamic child in the fs-collection.
    pub fn dynamic_child() -> (config: Self)
        ensures
            config.is_default(),
            config.component_type matches ComponentType::DynamicChild { collection_name }
                && collection_name@ == FS_COLLECTION_NAME@,
    {
        let mut config = Blobfs::default();
        config.component_type = ComponentType::DynamicChild {
            collection_name: FS_COLLECTION_NAME.to_owned(),
        };
        config
    }
}

impl Default for Blobfs {
    fn default() -> (config: Self)
        ensures
            config.is_default(),
    {
        Blobfs {
            verbose: false,
            deprecated_padded_blobfs_format: false,
            num_inodes: 0,
            readonly: false,
            write_compression_algorithm: BlobCompression::ZSTDChunked,
            write_compression_level: None,
            cache_eviction_policy_override: BlobEvictionPolicy::NeverEvict,
            component_type: ComponentType::default(),
        }
    }
}

impl FSConfig for Blobfs {
    fn options(&self) -> (options: Options)
        ensures
            options.component_name@ == "blobfs"@,
            options.reuse_component_after_serving == false,
            options.format_options == (FormatOptions {
                    verbose: spec_set_flag(self.verbose),
                    deprecated_padded_blobfs_format: spec_set_flag(self.deprecated_padded_blobfs_format),
                    num_inodes: if self.num_inodes > 0 {
                        Some(self.num_inodes)
                    } else {
                        None
                    },
                    ..FormatOptions::unset()
                }),
            options.start_options == (StartOptions {
                    read_only: spec_set_flag(self.readonly),
                    verbose: spec_set_flag(self.verbose),
                    write_compression_level: self.write_compression_level,
                    write_compression_algorithm: Some(
                        match self.write_compression_algorithm {
                            BlobCompression::ZSTDChunked => CompressionAlgorithm::ZstdChunked,
                            BlobCompression::Uncompressed => CompressionAlgorithm::Uncompressed,
                        },
                    ),
                    cache_eviction_policy_override: Some(
                        match self.cache_eviction_policy_override {
                            BlobEvictionPolicy::NeverEvict => EvictionPolicyOverride::NeverEvict,
                            BlobEvictionPolicy::EvictImmediately => {
                                EvictionPolicyOverride::EvictImmediately
                            },
                        },
                    ),
                    ..StartOptions::unset()
                }),
            options.component_type.same(self.component_type),
    {
        Options {
            component_name: "blobfs",
            reuse_component_after_serving: false,
            format_options: FormatOptions {
                    verbose: set_flag(self.verbose),
                    deprecated_padded_blobfs_format: set_flag(self.deprecated_padded_blobfs_format),
                    num_inodes: if self.num_inodes > 0 {
                        Some(self.num_inodes)
                    } else {
                        None
                    },
                    ..FormatOptions::default()
                },
            start_options: StartOptions {
                    read_only: set_flag(self.readonly),
                    verbose: set_flag(self.verbose),
                    write_compression_level: self.write_compression_level,
                    write_compression_algorithm: Some(
                        match self.write_compression_algorithm {
                            BlobCompression::ZSTDChunked => CompressionAlgorithm::ZstdChunked,
                            BlobCompression::Uncompressed => CompressionAlgorithm::Uncompressed,
                        },
                    ),
                    cache_eviction_policy_override: Some(
                        match self.cache_eviction_policy_override {
                            BlobEvictionPolicy::NeverEvict => EvictionPolicyOverride::NeverEvict,
                            BlobEvictionPolicy::EvictImmediately => {
                                EvictionPolicyOverride::EvictImmediately
                            },
                        },
                    ),
                    ..StartOptions::default()
                },
            component_type: self.component_type.duplicate(),
        }
    }

    fn disk_format(&self) -> (format: DiskFormat)
        ensures
            format == DiskFormat::Blobfs,
    {
        DiskFormat::Blobfs
    }
}

/// Minfs Filesystem Configuration
/// If fields are None or false, they will not be set in arguments.
pub struct Minfs {
    pub verbose: bool,
    pub fvm_data_slices: u32,
    pub readonly: bool,
    pub fsck_after_every_transaction: bool,
    pub component_type: ComponentType,
}

impl Minfs {
    /// The default configuration.
    pub open spec fn is_default(self) -> bool {
        &&& self.component_type.is_default()
        &&& self.verbose == false
        &&& self.fvm_data_slices == 0
        &&& self.readonly == false
        &&& self.fsck_after_every_transaction == false
    }

    /// Manages a block device using the default configuration.
    pub fn new<B>(block_connector: B) -> (filesystem: Filesystem<B, Minfs>)
        ensures
            filesystem.block_connector == block_connector,
            filesystem.config.is_default(),
    {
        Filesystem { block_connector, config: Minfs::default() }
    }

    /// Launch minfs, with the default configuration, as a dynamic child in the fs-collection.
    pub fn dynamic_child() -> (config: Self)
        ensures
            config.is_default(),
            config.component_type matches ComponentType::DynamicChild { collection_name }
                && collection_name@ == FS_COLLECTION_NAME@,
    {
        let mut config = Minfs::default();
        config.component_type = ComponentType::DynamicChild {
            collection_name: FS_COLLECTION_NAME.to_owned(),
        };
        config
    }
}

impl Default for Minfs {
    fn default() -> (config: Self)
        ensures
            config.is_default(),
    {
        Minfs {
            verbose: false,
            fvm_data_slices: 0,
            readonly: false,
            fsck_after_every_transaction: false,
            component_type: ComponentType::default(),
        }
    }
}

impl FSConfig for Minfs {
    fn options(&self) -> (options: Options)
        ensures
            options.component_name@ == "minfs"@,
            options.reuse_component_after_serving == false,
            options.format_options == (FormatOptions {
                    verbose: spec_set_flag(self.verbose),
                    fvm_data_slices: Some(self.fvm_data_slices),
                    ..FormatOptions::unset()
                }),
            options.start_options == (StartOptions {
                    read_only: spec_set_flag(self.readonly),
                    verbose: spec_set_flag(self.verbose),
                    fsck_after_every_transaction: spec_set_flag(self.fsck_after_every_transaction),
                    ..StartOptions::unset()
                }),
            options.component_type.same(self.component_type),
    {
        Options {
            component_name: "minfs",
            reuse_component_after_serving: false,
            format_options: FormatOptions {
                    verbose: set_flag(self.verbose),
                    fvm_data_slices: Some(self.fvm_data_slices),
                    ..FormatOptions::default()
                },
            start_options: StartOptions {
                    read_only: set_flag(self.readonly),
                    verbose: set_flag(self.verbose),
                    fsck_after_every_transaction: set_flag(self.fsck_after_every_transaction),
                    ..StartOptions::default()
                },
            component_type: self.component_type.duplicate(),
        }
    }

    fn disk_format(&self) -> (format: DiskFormat)
        ensures
            format == DiskFormat::Minfs,
    {
        DiskFormat::Minfs
    }
}

/// Fxfs Filesystem Configuration
pub struct Fxfs {
    pub readonly: bool,
    pub fsck_after_every_transaction: bool,
    pub startup_profiling_seconds: Option<u32>,
    pub inline_crypto_enabled: bool,
    pub barriers_enabled: bool,
    pub component_type: ComponentType,
}

impl Fxfs {
    /// The default configuration.
    pub open spec fn is_default(self) -> bool {
        &&& self.component_type.is_default()
        &&& self.readonly == false
        &&& self.fsck_after_every_transaction == false
        &&& self.startup_profiling_seconds is None
        &&& self.inline_crypto_enabled == false
        &&& self.barriers_enabled == false
    }

    /// Manages a block device using the default configuration.
    pub fn new<B>(block_connector: B) -> (filesystem: Filesystem<B, Fxfs>)
        ensures
            filesystem.block_connector == block_connector,
            filesystem.config.is_default(),
    {
        Filesystem { block_connector, config: Fxfs::default() }
    }

    /// Launch Fxfs, with the default configuration, as a dynamic child in the fs-collection.
    pub fn dynamic_child() -> (config: Self)
        ensures
            config.is_default(),
            config.component_type matches ComponentType::DynamicChild { collection_name }
                && collection_name@ == FS_COLLECTION_NAME@,
    {
        let mut config = Fxfs::default();
        config.component_type = ComponentType::DynamicChild {
            collection_name: FS_COLLECTION_NAME.to_owned(),
        };
        config
    }
}

impl Default for Fxfs {
    fn default() -> (config: Self)
        ensures
            config.is_default(),
    {
        Fxfs {
            readonly: false,
            fsck_after_every_transaction: false,
            startup_profiling_seconds: None,
            inline_crypto_enabled: false,
            barriers_enabled: false,
            component_type: ComponentType::default(),
        }
    }
}

impl FSConfig for Fxfs {
    fn options(&self) -> (options: Options)
        ensures
            options.component_name@ == "fxfs"@,
            options.reuse_component_after_serving == true,
            options.format_options == (FormatOptions {
                    verbose: Some(false),
                    ..FormatOptions::unset()
                }),
            options.start_options == (StartOptions {
                    read_only: Some(self.readonly),
                    fsck_after_every_transaction: Some(self.fsck_after_every_transaction),
                    startup_profiling_seconds: Some(
                        match self.startup_profiling_seconds {
                            Some(seconds) => seconds,
                            None => 0,
                        },
                    ),
                    inline_crypto_enabled: Some(self.inline_crypto_enabled),
                    barriers_enabled: Some(self.barriers_enabled),
                    ..StartOptions::unset()
                }),
            options.component_type.same(self.component_type),
    {
        Options {
            component_name: "fxfs",
            reuse_component_after_serving: true,
            format_options: FormatOptions {
                    verbose: Some(false),
                    ..FormatOptions::default()
                },
            start_options: StartOptions {
                    read_only: Some(self.readonly),
                    fsck_after_every_transaction: Some(self.fsck_after_every_transaction),
                    startup_profiling_seconds: Some(
                        match self.startup_profiling_seconds {
                            Some(seconds) => seconds,
                            None => 0,
                        },
                    ),
                    inline_crypto_enabled: Some(self.inline_crypto_enabled),
                    barriers_enabled: Some(self.barriers_enabled),
                    ..StartOptions::default()
                },
            component_type: self.component_type.duplicate(),
        }
    }

    fn is_multi_volume(&self) -> (multi: bool)
        ensures
            multi == true,
    {
        true
    }

    fn disk_format(&self) -> (format: DiskFormat)
        ensures
            format == DiskFormat::Fxfs,
    {
        DiskFormat::Fxfs
    }
}

/// F2fs Filesystem Configuration
pub struct F2fs {
    pub component_type: ComponentType,
}

impl F2fs {
    /// The default configuration.
    pub open spec fn is_default(self) -> bool {
        &&& self.component_type.is_default()
    }

    /// Manages a block device using the default configuration.
    pub fn new<B>(block_connector: B) -> (filesystem: Filesystem<B, F2fs>)
        ensures
            filesystem.block_connector == block_connector,
            filesystem.config.is_default(),
    {
        Filesystem { block_connector, config: F2fs::default() }
    }

    /// Launch f2fs, with the default configuration, as a dynamic child in the fs-collection.
    pub fn dynamic_child() -> (config: Self)
        ensures
            config.is_default(),
            config.component_type matches ComponentType::DynamicChild { collection_name }
                && collection_name@ == FS_COLLECTION_NAME@,
    {
        let mut config = F2fs::default();
        config.component_type = ComponentType::DynamicChild {
            collection_name: FS_COLLECTION_NAME.to_owned(),
        };
        config
    }
}

impl Default for F2fs {
    fn default() -> (config: Self)
        ensures
            config.is_default(),
    {
        F2fs {
            component_type: ComponentType::default(),
        }
    }
}

impl FSConfig for F2fs {
    fn options(&self) -> (options: Options)
        ensures
            options.component_name@ == "f2fs"@,
            options.reuse_component_after_serving == false,
            options.format_options == (FormatOptions::unset()),
            options.start_options == (StartOptions {
                    read_only: Some(false),
                    verbose: Some(false),
                    fsck_after_every_transaction: Some(false),
                    ..StartOptions::unset()
                }),
            options.component_type.same(self.component_type),
    {
        Options {
            component_name: "f2fs",
            reuse_component_after_serving: false,
            format_options: FormatOptions::default(),
            start_options: StartOptions {
                    read_only: Some(false),
                    verbose: Some(false),
                    fsck_after_every_transaction: Some(false),
                    ..StartOptions::default()
                },
            component_type: self.component_type.duplicate(),
        }
    }

    fn is_multi_volume(&self) -> (multi: bool)
        ensures
            multi == false,
    {
        false
    }

    fn disk_format(&self) -> (format: DiskFormat)
        ensures
            format == DiskFormat::F2fs,
    {
        DiskFormat::F2fs
    }
}

/// Fvm Filesystem Configuration
pub struct Fvm {
    pub component_type: ComponentType,
}

impl Fvm {
    /// The default configuration.
    pub open spec fn is_default(self) -> bool {
        &&& self.component_type.is_default()
    }

    /// Manages a block device using the default configuration.
    pub fn new<B>(block_connector: B) -> (filesystem: Filesystem<B, Fvm>)
        ensures
            filesystem.block_connector == block_connector,
            filesystem.config.is_default(),
    {
        Filesystem { block_connector, config: Fvm::default() }
    }

    /// Launch Fvm, with the default configuration, as a dynamic child in the fs-collection.
    pub fn dynamic_child() -> (config: Self)
        ensures
            config.is_default(),
            config.component_type matches ComponentType::DynamicChild { collection_name }
                && collection_name@ == FS_COLLECTION_NAME@,
    {
        let mut config = Fvm::default();
        config.component_type = ComponentType::DynamicChild {
            collection_name: FS_COLLECTION_NAME.to_owned(),
        };
        config
    }
}

impl Default for Fvm {
    fn default() -> (config: Self)
        ensures
            config.is_default(),
    {
        Fvm {
            component_type: ComponentType::default(),
        }
    }
}

impl FSConfig for Fvm {
    fn options(&self) -> (options: Options)
        ensures
            options.component_name@ == "fvm2"@,
            options.reuse_component_after_serving == true,
            options.format_options == (FormatOptions::unset()),
            options.start_options == (StartOptions::unset()),
            options.component_type.same(self.component_type),
    {
        Options {
            component_name: "fvm2",
            reuse_component_after_serving: true,
            format_options: FormatOptions::default(),
            start_options: StartOptions::default(),
            component_type: self.component_type.duplicate(),
        }
    }

    fn is_multi_volume(&self) -> (multi: bool)
        ensures
            multi == true,
    {
        true
    }

    fn disk_format(&self) -> (format: DiskFormat)
        ensures
            format == DiskFormat::Fvm,
    {
        DiskFormat::Fvm
    }
}

/// Gpt Configuration
pub struct Gpt {
    pub component_type: ComponentType,
}

impl Gpt {
    /// The default configuration.
    pub open spec fn is_default(self) -> bool {
        &&& self.component_type.is_default()
    }

    /// Manages a block device using the default configuration.
    pub fn new<B>(block_connector: B) -> (filesystem: Filesystem<B, Gpt>)
        ensures
            filesystem.block_connector == block_connector,
            filesystem.config.is_default(),
    {
        Filesystem { block_connector, config: Gpt::default() }
    }

    /// Launch Gpt, with the default configuration, as a dynamic child in the fs-collection.
    pub fn dynamic_child() -> (config: Self)
        ensures
            config.is_default(),
            config.component_type matches ComponentType::DynamicChild { collection_name }
                && collection_name@ == FS_COLLECTION_NAME@,
    {
        let mut config = Gpt::default();
        config.component_type = ComponentType::DynamicChild {
            collection_name: FS_COLLECTION_NAME.to_owned(),
        };
        config
    }
}

impl Default for Gpt {
    fn default() -> (config: Self)
        ensures
            config.is_default(),
    {
        Gpt {
            component_type: ComponentType::default(),
        }
    }
}

impl FSConfig for Gpt {
    fn options(&self) -> (options: Options)
        ensures
            options.component_name@ == "gpt2"@,
            options.reuse_component_after_serving == true,
            options.format_options == (FormatOptions::unset()),
            options.start_options == (StartOptions::unset()),
            options.component_type.same(self.component_type),
    {
        Options {
            component_name: "gpt2",
            reuse_component_after_serving: true,
            format_options: FormatOptions::default(),
            start_options: StartOptions::default(),
            component_type: self.component_type.duplicate(),
        }
    }

    fn is_multi_volume(&self) -> (multi: bool)
        ensures
            multi == true,
    {
        true
    }

    fn disk_format(&self) -> (format: DiskFormat)
        ensures
            format == DiskFormat::Gpt,
    {
        DiskFormat::Gpt
    }
}

/// To be launched in the same way is to be of the same kind, in the same collection.
pub proof fn lemma_launched_in_the_same_way(a: ComponentType, b: ComponentType, c: ComponentType)
    ensures
        a.same(a),
        a.same(b) <==> b.same(a),
        a.same(b) && b.same(c) ==> a.same(c),
        a.same(b) ==> (a is StaticChild <==> b is StaticChild),
        a.same(b) ==> (a matches ComponentType::DynamicChild { collection_name } ==> collection_name@
            == b->collection_name@),
        a.is_default() && a.same(b) ==> b.is_default(),
        a.is_default() && b.is_default() ==> a.same(b),
        a is StaticChild ==> !a.is_default(),
{
}

/// A flag is handed on if and only if it is true, and handed on as true.
pub proof fn lemma_flags_are_set_or_left_out(flag: bool)
    ensures
        spec_set_flag(flag) is Some <==> flag,
        spec_set_flag(flag) matches Some(set) ==> set,
{
}

/// By default no option is set.
pub proof fn lemma_nothing_is_set_by_default()
    ensures
        FormatOptions::unset().verbose is None,
        FormatOptions::unset().deprecated_padded_blobfs_format is None,
        FormatOptions::unset().num_inodes is None,
        FormatOptions::unset().fvm_data_slices is None,
        StartOptions::unset().read_only is None,
        StartOptions::unset().verbose is None,
        StartOptions::unset().fsck_after_every_transaction is None,
        StartOptions::unset().write_compression_algorithm is None,
        StartOptions::unset().write_compression_level is None,
        StartOptions::unset().cache_eviction_policy_override is None,
        StartOptions::unset().startup_profiling_seconds is None,
        StartOptions::unset().inline_crypto_enabled is None,
        StartOptions::unset().barriers_enabled is None,
{
}

/// Compression is on unless it is said to be off, and blobs are kept unless it is said to evict them.
pub proof fn lemma_what_is_not_known_is_the_default(value: &str)
    ensures
        value@ == "uncompressed"@ <==> <BlobCompression as vstd::std_specs::convert::FromSpec<
            &str,
        >>::from_spec(value) == BlobCompression::Uncompressed,
        value@ == "evict_immediately"@ <==> <BlobEvictionPolicy as vstd::std_specs::convert::FromSpec<
            &str,
        >>::from_spec(value) == BlobEvictionPolicy::EvictImmediately,
{
    reveal_strlit("zstd_chunked");
    reveal_strlit("uncompressed");
    reveal_strlit("never_evict");
    reveal_strlit("evict_immediately");
    assert("zstd_chunked"@[0] == 'z' && "uncompressed"@[0] == 'u');
    assert("never_evict"@[0] == 'n' && "evict_immediately"@[0] == 'e');
}

/// By default filesystems can be written to, do not say much, leave the format as it is, and are launched as
/// dynamic children in "fs-collection".
pub proof fn lemma_default_configurations(blobfs: Blobfs, minfs: Minfs, fxfs: Fxfs)
    ensures
        blobfs.is_default() ==> !blobfs.readonly && !blobfs.verbose && blobfs.num_inodes == 0
            && !blobfs.deprecated_padded_blobfs_format && blobfs.write_compression_level is None
            && blobfs.write_compression_algorithm == BlobCompression::ZSTDChunked
            && blobfs.cache_eviction_policy_override == BlobEvictionPolicy::NeverEvict,
        minfs.is_default() ==> !minfs.readonly && !minfs.verbose && minfs.fvm_data_slices == 0
            && !minfs.fsck_after_every_transaction,
        fxfs.is_default() ==> !fxfs.readonly && !fxfs.fsck_after_every_transaction
            && fxfs.startup_profiling_seconds is None && !fxfs.inline_crypto_enabled
            && !fxfs.barriers_enabled,
        blobfs.is_default() ==> (blobfs.component_type matches ComponentType::DynamicChild { collection_name }
            && collection_name@ == "fs-collection"@),
        minfs.is_default() && blobfs.is_default() ==> minfs.component_type.same(blobfs.component_type),
        fxfs.is_default() && blobfs.is_default() ==> fxfs.component_type.same(blobfs.component_type),
{
}

} // verus!
