//! Super-blocks: which one is used, what their header has to be like, and how they grow.
//!
//! There are two super-blocks in an A/B configuration, each of them a header followed by records: the
//! extents of the super-block itself, and the objects of the root parent store.
use crate::fx_map::fx_map_default;
use crate::guid::{is_random_guid, UuidWrapper, UuidWrapperV32};
use crate::journal::{JournalCheckpoint, Version};
use crate::object_record::ObjectItem;
use crate::object_store::{LockState, ObjectStore, StoreError, TreeChange};
use crate::store_journal::{
    lemma_counting_counts_one, lemma_objects_are_counted, lemma_replayed_identifiers_count_as_used, ApplyContext,
};
use crate::transaction::{DeviceRange, DeviceRangeV32, MutationV47, ObjectStoreMutationV47, OperationV32};
use core::ops::Range;
use rustc_hash::FxHashMap;
use vstd::prelude::*;

verus! {

/// The object of super-block A in the root store.
pub const SUPER_BLOCK_A_OBJECT_ID: u64 = 1;

/// The object of super-block B in the root store.
pub const SUPER_BLOCK_B_OBJECT_ID: u64 = 2;

/// The superblock is extended in units of `SUPER_BLOCK_CHUNK_SIZE` as required.
pub const SUPER_BLOCK_CHUNK_SIZE: u64 = 65536;

/// Each superblock is one block but may contain records that extend its own length.
pub const MIN_SUPER_BLOCK_SIZE: u64 = 4096;

/// The first 2 * 512 KiB on the disk used to be reserved for two A/B super-blocks.
pub const LEGACY_MIN_SUPER_BLOCK_SIZE: u64 = 524_288;

/// From this version on, the first extent of a super-block is small.
pub const SMALL_SUPERBLOCK_VERSION: u32 = 44;

/// From this version on, super-blocks describe their first extent themselves.
pub const FIRST_EXTENT_IN_SUPERBLOCK_VERSION: u32 = 45;

/// This represents the two super-blocks.
#[derive(Clone, Copy, Debug, PartialEq, Eq, Structural)]
pub enum SuperBlockInstance {
    A,
    B,
}

impl SuperBlockInstance {
    /// The other one.
    pub open spec fn other(self) -> SuperBlockInstance {
        match self {
            SuperBlockInstance::A => SuperBlockInstance::B,
            SuperBlockInstance::B => SuperBlockInstance::A,
        }
    }

    /// The object of the super-block.
    pub open spec fn spec_object_id(self) -> u64 {
        match self {
            SuperBlockInstance::A => SUPER_BLOCK_A_OBJECT_ID,
            SuperBlockInstance::B => SUPER_BLOCK_B_OBJECT_ID,
        }
    }

    /// Where the super-block starts on the device.
    pub open spec fn start(self) -> u64 {
        match self {
            SuperBlockInstance::A => 0,
            SuperBlockInstance::B => LEGACY_MIN_SUPER_BLOCK_SIZE,
        }
    }

    /// Where the first extent of the super-block lies.
    pub open spec fn spec_first_extent(self) -> DeviceRange {
        DeviceRangeV32 {
            start: self.start(),
            end: (self.start() + MIN_SUPER_BLOCK_SIZE) as u64,
        }
    }

    /// Returns the next [SuperBlockInstance] for use in round-robining writes across super-blocks.
    pub fn next(&self) -> (next: SuperBlockInstance)
        ensures
            next == self.other(),
    {
        match self {
            SuperBlockInstance::A => SuperBlockInstance::B,
            SuperBlockInstance::B => SuperBlockInstance::A,
        }
    }

    pub fn object_id(&self) -> (id: u64)
        ensures
            id == self.spec_object_id(),
    {
        match self {
            SuperBlockInstance::A => SUPER_BLOCK_A_OBJECT_ID,
            SuperBlockInstance::B => SUPER_BLOCK_B_OBJECT_ID,
        }
    }

    /// Returns the byte range where the first extent of the [SuperBlockInstance] is stored.
    /// (Note that a [SuperBlockInstance] may still have multiple extents.)
    pub fn first_extent(&self) -> (extent: Range<u64>)
        ensures
            extent.start == self.start(),
            extent.end == self.start() + MIN_SUPER_BLOCK_SIZE,
    {
        match self {
            SuperBlockInstance::A => 0..MIN_SUPER_BLOCK_SIZE,
            SuperBlockInstance::B => 524288..524288 + MIN_SUPER_BLOCK_SIZE,
        }
    }

    /// We used to allocate 512kB to superblocks but this was almost always more than needed.
    pub fn legacy_first_extent(&self) -> (extent: Range<u64>)
        ensures
            extent.start == self.start(),
            extent.end == self.start() + LEGACY_MIN_SUPER_BLOCK_SIZE,
    {
        match self {
            SuperBlockInstance::A => 0..LEGACY_MIN_SUPER_BLOCK_SIZE,
            SuperBlockInstance::B => LEGACY_MIN_SUPER_BLOCK_SIZE..2 * LEGACY_MIN_SUPER_BLOCK_SIZE,
        }
    }
}

/// Writes alternate between two objects, and neither first extent reaches into that of the other.
pub proof fn lemma_instances_alternate(instance: SuperBlockInstance)
    ensures
        instance.other() != instance,
        instance.other().other() == instance,
        instance.other().spec_object_id() != instance.spec_object_id(),
        instance.start() + LEGACY_MIN_SUPER_BLOCK_SIZE <= instance.other().start()
            || instance.other().start() + LEGACY_MIN_SUPER_BLOCK_SIZE <= instance.start(),
{
}

/// Where each object has been flushed to: from object ID to journal file offset.
pub type JournalFileOffsets = FxHashMap<u64, u64>;

/// This is the header of a super-block.
pub type SuperBlockHeader = SuperBlockHeaderV32;

pub struct SuperBlockHeaderV32 {
    /// The globally unique identifier for the filesystem.
    pub guid: UuidWrapper,
    /// There are two super-blocks which are used in an A/B configuration. The super-block with the
    /// greatest generation number is what is used when mounting an image; the other is discarded.
    pub generation: u64,
    /// The root parent store is an in-memory only store and serves as the backing store for the
    /// root store and the journal.  The records for this store are serialized into the super-block
    /// and mutations are also recorded in the journal.
    pub root_parent_store_object_id: u64,
    /// The root parent needs a graveyard and there's nowhere else to store it other than in the
    /// super-block.
    pub root_parent_graveyard_directory_object_id: u64,
    /// The root object store contains all other metadata objects (including the allocator, the
    /// journal and the super-blocks) and is the parent for all other object stores.
    pub root_store_object_id: u64,
    /// This is in the root object store.
    pub allocator_object_id: u64,
    /// This is in the root parent object store.
    pub journal_object_id: u64,
    /// Start checkpoint for the journal file.
    pub journal_checkpoint: JournalCheckpoint,
    /// Offset of the journal file when the super-block was written.  If no entry is present in
    /// journal_file_offsets for a particular object, then an object might have dependencies on the
    /// journal from super_block_journal_file_offset onwards, but not earlier.
    pub super_block_journal_file_offset: u64,
    /// Indicates where each object has been flushed to.
    pub journal_file_offsets: JournalFileOffsets,
    /// Records the amount of borrowed metadata space as applicable at
    /// `super_block_journal_file_offset`.
    pub borrowed_metadata_space: u64,
    /// The earliest version used to create any still-existing struct in the filesystem.
    pub earliest_version: Version,
}

/// Why a super-block cannot be used.
#[derive(Clone, Copy, Debug, PartialEq, Eq, Structural)]
pub enum HeaderError {
    InvalidMagic,
    UnsupportedSuperBlockVersion,
    UnsupportedJournalCheckpointVersion,
    UnsupportedStructVersion,
}

/// All super-blocks start with the magic bytes "FxfsSupr".
pub open spec fn super_block_magic() -> Seq<u8> {
    seq![0x46u8, 0x78, 0x66, 0x73, 0x53, 0x75, 0x70, 0x72]
}

/// Validates the magic bytes that a super-block starts with.
pub fn check_magic(magic_bytes: &[u8; 8]) -> (check: Result<(), HeaderError>)
    ensures
        check == (if magic_bytes@ == super_block_magic() {
            Result::<(), HeaderError>::Ok(())
        } else {
            Err(HeaderError::InvalidMagic)
        }),
{
    if magic_bytes[0] == 0x46 && magic_bytes[1] == 0x78 && magic_bytes[2] == 0x66 && magic_bytes[3]
        == 0x73 && magic_bytes[4] == 0x53 && magic_bytes[5] == 0x75 && magic_bytes[6] == 0x70
        && magic_bytes[7] == 0x72 {
        assert(magic_bytes@ =~= super_block_magic());
        Ok(())
    } else {
        assert(super_block_magic()[0] == 0x46 && super_block_magic()[1] == 0x78);
        Err(HeaderError::InvalidMagic)
    }
}

/// The first extent that a super-block of an older version assumes.
pub open spec fn spec_assumed_extent(version: Version, instance: SuperBlockInstance) -> Option<
    DeviceRange,
> {
    if version.major < SMALL_SUPERBLOCK_VERSION {
        Some(
            DeviceRangeV32 {
                start: instance.start(),
                end: (instance.start() + LEGACY_MIN_SUPER_BLOCK_SIZE) as u64,
            },
        )
    } else if version.major < FIRST_EXTENT_IN_SUPERBLOCK_VERSION {
        Some(instance.spec_first_extent())
    } else {
        None
    }
}

/// Returns the first extent that a super-block of an older version assumes.  Prior to version 44,
/// super-blocks assume a 512kB first extent, and at version 44 one of 4kB.  Later ones describe their
/// own extents.
pub fn assumed_extent(version: &Version, instance: SuperBlockInstance) -> (extent: Option<
    DeviceRange,
>)
    ensures
        extent == spec_assumed_extent(*version, instance),
{
    let small = Version { major: SMALL_SUPERBLOCK_VERSION, minor: 0 };
    let described = Version { major: FIRST_EXTENT_IN_SUPERBLOCK_VERSION, minor: 0 };
    if version.is_before(&small) {
        let extent = instance.legacy_first_extent();
        Some(DeviceRangeV32 { start: extent.start, end: extent.end })
    } else if version.is_before(&described) {
        let extent = instance.first_extent();
        Some(DeviceRangeV32 { start: extent.start, end: extent.end })
    } else {
        None
    }
}

impl SuperBlockHeaderV32 {
    /// Creates a new instance with random GUID.
    pub fn new(
        root_parent_store_object_id: u64,
        root_parent_graveyard_directory_object_id: u64,
        root_store_object_id: u64,
        allocator_object_id: u64,
        journal_object_id: u64,
        journal_checkpoint: JournalCheckpoint,
        earliest_version: Version,
    ) -> (header: Self)
        ensures
            is_random_guid(header.guid.0),
            header.generation == 1,
            header.root_parent_store_object_id == root_parent_store_object_id,
            header.root_parent_graveyard_directory_object_id
                == root_parent_graveyard_directory_object_id,
            header.root_store_object_id == root_store_object_id,
            header.allocator_object_id == allocator_object_id,
            header.journal_object_id == journal_object_id,
            header.journal_checkpoint == journal_checkpoint,
            header.super_block_journal_file_offset == 0,
            header.journal_file_offsets@.dom() == Set::<u64>::empty(),
            header.borrowed_metadata_space == 0,
            header.earliest_version == earliest_version,
    {
        SuperBlockHeaderV32 {
            guid: UuidWrapperV32::new(),
            generation: 1,
            root_parent_store_object_id,
            root_parent_graveyard_directory_object_id,
            root_store_object_id,
            allocator_object_id,
            journal_object_id,
            journal_checkpoint,
            super_block_journal_file_offset: 0,
            journal_file_offsets: fx_map_default(),
            borrowed_metadata_space: 0,
            earliest_version,
        }
    }

    /// Checks that everything that the header speaks of has a version that is still supported.
    ///
    /// NOTE: It is possible that data was written to the journal with an old version but no compaction
    /// ever happened, so the journal version could potentially be older than the layer file versions.
    pub fn check_versions(
        &self,
        super_block_version: &Version,
        earliest_supported: &Version,
    ) -> (check: Result<(), HeaderError>)
        ensures
            check == (if super_block_version.before(*earliest_supported) {
                Result::<(), HeaderError>::Err(HeaderError::UnsupportedSuperBlockVersion)
            } else if self.journal_checkpoint.version.before(*earliest_supported) {
                Err(HeaderError::UnsupportedJournalCheckpointVersion)
            } else if self.earliest_version.before(*earliest_supported) {
                Err(HeaderError::UnsupportedStructVersion)
            } else {
                Ok(())
            }),
    {
        if super_block_version.is_before(earliest_supported) {
            return Err(HeaderError::UnsupportedSuperBlockVersion);
        }
        if self.journal_checkpoint.version.is_before(earliest_supported) {
            return Err(HeaderError::UnsupportedJournalCheckpointVersion);
        }
        if self.earliest_version.is_before(earliest_supported) {
            return Err(HeaderError::UnsupportedStructVersion);
        }
        Ok(())
    }

    /// Why a super-block that starts with `magic` and this header cannot be used.
    pub open spec fn header_error(
        self,
        magic: Seq<u8>,
        super_block_version: Version,
        earliest_supported: Version,
    ) -> Option<HeaderError> {
        if magic != super_block_magic() {
            Some(HeaderError::InvalidMagic)
        } else if super_block_version.before(earliest_supported) {
            Some(HeaderError::UnsupportedSuperBlockVersion)
        } else if self.journal_checkpoint.version.before(earliest_supported) {
            Some(HeaderError::UnsupportedJournalCheckpointVersion)
        } else if self.earliest_version.before(earliest_supported) {
            Some(HeaderError::UnsupportedStructVersion)
        } else {
            None
        }
    }

    /// Checks the super-block header that was read after `magic_bytes`, and returns it and a reader for
    /// the records that are to be replayed in to the root parent object store.
    pub fn read_header(
        magic_bytes: &[u8; 8],
        header: SuperBlockHeader,
        super_block_version: &Version,
        earliest_supported: &Version,
        target_super_block: SuperBlockInstance,
    ) -> (read: Result<(SuperBlockHeader, RecordReader), HeaderError>)
        ensures
            match header.header_error(magic_bytes@, *super_block_version, *earliest_supported) {
                Some(error) => read == Result::<(SuperBlockHeader, RecordReader), HeaderError>::Err(
                    error,
                ),
                None => {
                    &&& read matches Ok((checked, reader))
                    &&& reader.extents@ == seq![target_super_block.spec_first_extent()] + (
                    match spec_assumed_extent(*super_block_version, target_super_block) {
                        Some(extent) => seq![extent],
                        None => Seq::empty(),
                    })
                    &&& header.guid.spec_is_nil() ==> is_random_guid(checked.guid.0)
                    &&& !header.guid.spec_is_nil() ==> checked.guid == header.guid
                    &&& checked == (SuperBlockHeaderV32 { guid: checked.guid, ..header })
                },
            },
    {
        match check_magic(magic_bytes) {
            Ok(_) => {},
            Err(error) => {
                return Err(error);
            },
        }
        match header.check_versions(super_block_version, earliest_supported) {
            Ok(_) => {},
            Err(error) => {
                return Err(error);
            },
        }
        let first = target_super_block.first_extent();
        let mut extents: Vec<DeviceRange> = Vec::new();
        extents.push(DeviceRangeV32 { start: first.start, end: first.end });
        if let Some(extent) = assumed_extent(super_block_version, target_super_block) {
            extents.push(extent);
        }
        let mut header = header;
        header.assign_guid();
        Ok((header, RecordReader { extents }))
    }

    /// If guid is zeroed (e.g. in a newly imaged system), assigns one randomly.
    pub fn assign_guid(&mut self)
        ensures
            old(self).guid.spec_is_nil() ==> is_random_guid(final(self).guid.0),
            *final(self) == (SuperBlockHeaderV32 {
                guid: if old(self).guid.spec_is_nil() {
                    final(self).guid
                } else {
                    old(self).guid
                },
                ..*old(self)
            }),
            !final(self).guid.spec_is_nil(),
    {
        if self.guid.is_nil() {
            self.guid = UuidWrapperV32::new();
        }
    }

    /// Returns the root parent store with nothing in it yet.
    pub fn root_parent(&self, block_size: u64) -> (store: ObjectStore)
        ensures
            store.parent_store is None,
            store.store_object_id == self.root_parent_store_object_id,
            store.block_size == block_size,
            store.lock_state == LockState::Unencrypted,
            store.store_info is Some,
            store.store_info->0.graveyard_directory_object_id
                == self.root_parent_graveyard_directory_object_id,
            store.store_info->0.object_count == 0,
            store.last_object_id.id == 0,
            !store.last_object_id.has_cipher,
            store.counters.is_zero(),
            !store.trace,
    {
        let mut store = ObjectStore::new_root_parent(block_size, self.root_parent_store_object_id);
        store.set_graveyard_directory_object_id(self.root_parent_graveyard_directory_object_id);
        store
    }
}

/// Following the super-block header are these records.
pub type SuperBlockRecord = SuperBlockRecordV47;

#[derive(Debug)]
pub enum SuperBlockRecordV47 {
    /// When reading the super-block we know the initial extent, but not subsequent extents, so these
    /// records need to exist to allow us to completely read the super-block.
    Extent(DeviceRange),
    /// Following the super-block header are ObjectItem records that are to be replayed into the root
    /// parent object store.
    ObjectItem(ObjectItem),
    /// Marks the end of the full super-block.
    End,
}

/// Why the records of a super-block cannot be replayed.
#[derive(Clone, Copy, Debug, PartialEq, Eq, Structural)]
pub enum RecordError {
    UnexpectedReset,
    ChecksumMismatch,
    /// An extent is not valid.
    Inconsistent,
    /// An extent stands where the reader should have taken it.
    UnexpectedExtent,
    Store(StoreError),
}

/// What was read from the device.
pub enum ReadResult {
    Reset,
    ChecksumMismatch,
    Record(SuperBlockRecord),
}

/// Reads the records of a super-block, and the extents that it lies in.
pub struct RecordReader {
    /// The extents that were found, in order.
    pub extents: Vec<DeviceRange>,
}

impl RecordReader {
    /// Takes the next thing that was read.  A record is returned unless it is an extent: that one is
    /// noted, so that reading can go on there.
    pub fn next_item(&mut self, read: ReadResult) -> (record: Result<
        Option<SuperBlockRecord>,
        RecordError,
    >)
        ensures
            match read {
                ReadResult::Reset => {
                    &&& record == Result::<Option<SuperBlockRecord>, RecordError>::Err(
                        RecordError::UnexpectedReset,
                    )
                    &&& *final(self) == *old(self)
                },
                ReadResult::ChecksumMismatch => {
                    &&& record == Result::<Option<SuperBlockRecord>, RecordError>::Err(
                        RecordError::ChecksumMismatch,
                    )
                    &&& *final(self) == *old(self)
                },
                ReadResult::Record(SuperBlockRecordV47::Extent(extent)) => if extent.start
                    <= extent.end {
                    &&& record == Result::<Option<SuperBlockRecord>, RecordError>::Ok(None)
                    &&& final(self).extents@ == old(self).extents@.push(extent)
                } else {
                    &&& record == Result::<Option<SuperBlockRecord>, RecordError>::Err(
                        RecordError::Inconsistent,
                    )
                    &&& *final(self) == *old(self)
                },
                ReadResult::Record(other) => {
                    &&& record == Result::<Option<SuperBlockRecord>, RecordError>::Ok(Some(other))
                    &&& *final(self) == *old(self)
                },
            },
    {
        match read {
            ReadResult::Reset => Err(RecordError::UnexpectedReset),
            ReadResult::ChecksumMismatch => Err(RecordError::ChecksumMismatch),
            ReadResult::Record(SuperBlockRecordV47::Extent(extent)) => {
                if extent.start > extent.end {
                    return Err(RecordError::Inconsistent);
                }
                self.extents.push(extent);
                Ok(None)
            },
            ReadResult::Record(record) => Ok(Some(record)),
        }
    }
}

/// Replays a record into the root parent store.  Returns what that does to its tree, or none at the end
/// of the super-block.
pub fn replay_record(root_parent: &mut ObjectStore, record: SuperBlockRecord) -> (change: Result<
    Option<TreeChange>,
    RecordError,
>)
    requires
        old(root_parent).lock_state == LockState::Unencrypted,
        old(root_parent).store_info is Some,
        !old(root_parent).last_object_id.has_cipher,
        record is ObjectItem ==> old(root_parent).counters.mutations_applied < u64::MAX,
    ensures
        match record {
            SuperBlockRecordV47::Extent(_) => {
                &&& change == Result::<Option<TreeChange>, RecordError>::Err(
                    RecordError::UnexpectedExtent,
                )
                &&& *final(root_parent) == *old(root_parent)
            },
            SuperBlockRecordV47::End => {
                &&& change == Result::<Option<TreeChange>, RecordError>::Ok(None)
                &&& *final(root_parent) == *old(root_parent)
            },
            SuperBlockRecordV47::ObjectItem(item) => {
                &&& change == Result::<Option<TreeChange>, RecordError>::Ok(
                    Some(TreeChange::Insert(item)),
                )
                &&& *final(root_parent) == with_item(*old(root_parent), item)
            },
        },
{
    match record {
        // RecordReader should filter out extent records.
        SuperBlockRecordV47::Extent(_) => Err(RecordError::UnexpectedExtent),
        SuperBlockRecordV47::ObjectItem(item) => {
            let context = ApplyContext {
                is_replay: true,
                checkpoint: JournalCheckpoint {
                    file_offset: item.sequence,
                    checksum: 0,
                    version: Version { major: 0, minor: 0 },
                },
            };
            let mutation = MutationV47::insert_object(item.key, item.value);
            match root_parent.apply_mutation(mutation, &context, None) {
                Ok(change) => {
                    root_parent.count_applied();
                    Ok(Some(change))
                },
                Err(error) => Err(RecordError::Store(error)),
            }
        },
        SuperBlockRecordV47::End => Ok(None),
    }
}

/// The root parent store once `item` has been replayed into it and counted.
pub open spec fn with_item(root_parent: ObjectStore, item: ObjectItem) -> ObjectStore {
    root_parent.applied(
        MutationV47::object_mutation(item.key, item.value, OperationV32::Insert),
        true,
        None,
    ).counted()
}

/// A super-block whose records are being read.
pub struct SuperBlockReader {
    pub root_parent: ObjectStore,
    pub reader: RecordReader,
    /// What is done to the tree of the root parent store.
    pub changes: Vec<TreeChange>,
}

/// How far reading a super-block has come.
#[verifier::ext_equal]
pub struct ReaderView {
    pub root_parent: ObjectStore,
    pub extents: Seq<DeviceRange>,
    pub changes: Seq<TreeChange>,
}

impl View for SuperBlockReader {
    type V = ReaderView;

    open spec fn view(&self) -> ReaderView {
        ReaderView {
            root_parent: self.root_parent,
            extents: self.reader.extents@,
            changes: self.changes@,
        }
    }
}

impl ReaderView {
    /// The root parent store can take records.
    pub open spec fn wf(self) -> bool {
        &&& self.root_parent.lock_state == LockState::Unencrypted
        &&& self.root_parent.store_info is Some
        &&& !self.root_parent.last_object_id.has_cipher
    }

    /// With one more record.
    pub open spec fn plus(self, record: SuperBlockRecord) -> ReaderView {
        match record {
            SuperBlockRecordV47::Extent(extent) => ReaderView {
                extents: self.extents.push(extent),
                ..self
            },
            SuperBlockRecordV47::ObjectItem(item) => ReaderView {
                root_parent: with_item(self.root_parent, item),
                changes: self.changes.push(TreeChange::Insert(item)),
                ..self
            },
            SuperBlockRecordV47::End => self,
        }
    }

    /// With some more records.
    pub open spec fn plus_all(self, records: Seq<SuperBlockRecord>) -> ReaderView
        decreases records.len(),
    {
        if records.len() == 0 {
            self
        } else {
            self.plus_all(records.drop_last()).plus(records.last())
        }
    }
}

impl SuperBlockReader {
    /// Starts to read the records after `header`.
    pub fn new(header: &SuperBlockHeader, block_size: u64, reader: RecordReader) -> (this: Self)
        ensures
            this@.wf(),
            this.reader == reader,
            this.changes@ == Seq::<TreeChange>::empty(),
            this.root_parent.store_object_id == header.root_parent_store_object_id,
            this.root_parent.store_info->0.graveyard_directory_object_id
                == header.root_parent_graveyard_directory_object_id,
            this.root_parent.store_info->0.object_count == 0,
            this.root_parent.last_object_id.id == 0,
            this.root_parent.block_size == block_size,
            this.root_parent.parent_store is None,
            this.root_parent.counters.is_zero(),
    {
        SuperBlockReader {
            root_parent: header.root_parent(block_size),
            reader,
            changes: Vec::new(),
        }
    }

    /// Takes the next thing that was read.  Returns whether that was the end of the super-block.
    pub fn read(&mut self, read: ReadResult) -> (done: Result<bool, RecordError>)
        requires
            old(self)@.wf(),
            read matches ReadResult::Record(SuperBlockRecordV47::ObjectItem(_)) ==> old(
                self,
            ).root_parent.counters.mutations_applied < u64::MAX,
        ensures
            final(self)@.wf(),
            match read {
                ReadResult::Reset => {
                    &&& done == Result::<bool, RecordError>::Err(RecordError::UnexpectedReset)
                    &&& final(self)@ == old(self)@
                },
                ReadResult::ChecksumMismatch => {
                    &&& done == Result::<bool, RecordError>::Err(RecordError::ChecksumMismatch)
                    &&& final(self)@ == old(self)@
                },
                ReadResult::Record(record) => if record matches SuperBlockRecordV47::Extent(extent)
                    && extent.start > extent.end {
                    &&& done == Result::<bool, RecordError>::Err(RecordError::Inconsistent)
                    &&& final(self)@ == old(self)@
                } else {
                    &&& done == Result::<bool, RecordError>::Ok(record is End)
                    &&& final(self)@ == old(self)@.plus(record)
                },
            },
    {
        match self.reader.next_item(read) {
            Err(error) => Err(error),
            Ok(None) => Ok(false),
            Ok(Some(record)) => match replay_record(&mut self.root_parent, record) {
                Err(error) => Err(error),
                Ok(None) => Ok(true),
                Ok(Some(change)) => {
                    self.changes.push(change);
                    Ok(false)
                },
            },
        }
    }
}

/// A super-block that was read, with the root parent store that its records make up.
pub struct LoadedSuperBlock {
    pub header: SuperBlockHeader,
    pub root_parent: ObjectStore,
}

/// This encapsulates the A/B alternating super-block logic.
pub struct SuperBlockManager {
    pub next_instance: SuperBlockInstance,
}

/// Which of two super-blocks is used: the one that is valid or, if both are, the one with the greatest
/// generation.
pub open spec fn chosen_instance(a: Option<u64>, b: Option<u64>) -> Option<SuperBlockInstance> {
    match (a, b) {
        (None, None) => None,
        (Some(_), None) => Some(SuperBlockInstance::A),
        (None, Some(_)) => Some(SuperBlockInstance::B),
        (Some(a), Some(b)) => Some(
            if b > a {
                SuperBlockInstance::B
            } else {
                SuperBlockInstance::A
            },
        ),
    }
}

/// The generation of a super-block that could be read.
pub open spec fn loaded_generation<E>(read: Result<LoadedSuperBlock, E>) -> Option<u64> {
    match read {
        Ok(loaded) => Some(loaded.header.generation),
        Err(_) => None,
    }
}

impl SuperBlockManager {
    pub fn new() -> (manager: Self)
        ensures
            manager.next_instance == SuperBlockInstance::A,
    {
        SuperBlockManager { next_instance: SuperBlockInstance::A }
    }

    /// Takes what reading both A/B super-blocks and root parent stores came to, and returns the newest
    /// valid pair. Also ensures the next super-block updated will be the other instance.
    pub fn load<E>(
        &mut self,
        a: Result<LoadedSuperBlock, E>,
        b: Result<LoadedSuperBlock, E>,
    ) -> (loaded: Result<LoadedSuperBlock, (E, E)>)
        ensures
            match chosen_instance(loaded_generation(a), loaded_generation(b)) {
                None => {
                    &&& loaded == Result::<LoadedSuperBlock, (E, E)>::Err((a->Err_0, b->Err_0))
                    &&& *final(self) == *old(self)
                },
                Some(SuperBlockInstance::A) => {
                    &&& loaded == Result::<LoadedSuperBlock, (E, E)>::Ok(a->Ok_0)
                    &&& final(self).next_instance == SuperBlockInstance::B
                },
                Some(SuperBlockInstance::B) => {
                    &&& loaded == Result::<LoadedSuperBlock, (E, E)>::Ok(b->Ok_0)
                    &&& final(self).next_instance == SuperBlockInstance::A
                },
            },
    {
        let (loaded, current) = match (a, b) {
            (Err(e1), Err(e2)) => {
                return Err((e1, e2));
            },
            (Ok(loaded), Err(_)) => (loaded, SuperBlockInstance::A),
            (Err(_), Ok(loaded)) => (loaded, SuperBlockInstance::B),
            (Ok(loaded_a), Ok(loaded_b)) => {
                // Break the tie by taking the super-block with the greatest generation.
                if loaded_b.header.generation > loaded_a.header.generation {
                    (loaded_b, SuperBlockInstance::B)
                } else {
                    (loaded_a, SuperBlockInstance::A)
                }
            },
        };
        self.next_instance = current.next();
        Ok(loaded)
    }

    /// Returns the object to write the next super-block to; the one after it goes to the other.
    pub fn take_next_object_id(&mut self) -> (object_id: u64)
        ensures
            object_id == old(self).next_instance.spec_object_id(),
            final(self).next_instance == old(self).next_instance.other(),
    {
        let object_id: u64 = self.next_instance.object_id();
        self.next_instance = self.next_instance.next();
        object_id
    }
}

/// Saving never overwrites the super-block that was loaded: the next save goes to the other one, and the
/// one after that to the one that was loaded.
pub proof fn lemma_save_spares_what_was_loaded(a: Option<u64>, b: Option<u64>)
    ensures
        chosen_instance(a, b) matches Some(loaded) ==> {
            &&& loaded.other().spec_object_id() != loaded.spec_object_id()
            &&& loaded.other().other().spec_object_id() == loaded.spec_object_id()
        },
{
}

/// If the super-block that is written takes a greater generation than the one that was loaded, it is the
/// one that is loaded next time.
pub proof fn lemma_newer_generation_wins(a: Option<u64>, b: Option<u64>, generation: u64)
    requires
        chosen_instance(a, b) is Some,
        chosen_instance(a, b) == Some(SuperBlockInstance::A) ==> generation > a->0,
        chosen_instance(a, b) == Some(SuperBlockInstance::B) ==> generation > b->0,
    ensures
        chosen_instance(a, b) == Some(SuperBlockInstance::A) ==> chosen_instance(
            a,
            Some(generation),
        ) == Some(SuperBlockInstance::B),
        chosen_instance(a, b) == Some(SuperBlockInstance::B) ==> chosen_instance(
            Some(generation),
            b,
        ) == Some(SuperBlockInstance::A),
{
}

/// Lays out a super-block in its extents.
pub struct SuperBlockWriter {
    /// The extents that the file has already, each with its offset.
    pub existing_extents: Vec<(u64, DeviceRange)>,
    /// How many of them are in use.
    pub used: usize,
    /// How much of the file is covered by extents that are in use.
    pub size: u64,
}

/// The file has a hole in front of the next extent.
#[derive(Debug)]
pub struct HoleError {
    /// The extents before the hole that came into use.
    pub extents: Vec<DeviceRange>,
}

/// Less space was allocated than was asked for.
#[derive(Clone, Copy, Debug, PartialEq, Eq, Structural)]
pub struct NoSpaceError;

/// How many bytes some ranges cover.
pub open spec fn covered(ranges: Seq<DeviceRange>) -> int
    decreases ranges.len(),
{
    if ranges.len() == 0 {
        0
    } else {
        covered(ranges.drop_last()) + ranges.last().end - ranges.last().start
    }
}

proof fn lemma_covered_prefix(ranges: Seq<DeviceRange>, count: int)
    requires
        0 <= count <= ranges.len(),
        forall|i: int| 0 <= i < ranges.len() ==> (#[trigger] ranges[i]).start <= ranges[i].end,
    ensures
        covered(ranges.take(count)) <= covered(ranges),
    decreases ranges.len(),
{
    if count == ranges.len() {
        assert(ranges.take(count) =~= ranges);
    } else {
        assert(ranges.drop_last().take(count) =~= ranges.take(count));
        lemma_covered_prefix(ranges.drop_last(), count);
    }
}

/// The size that extents `from` to `to` add up to, on top of `size`.
pub open spec fn extended_size(
    extents: Seq<(u64, DeviceRange)>,
    from: int,
    to: int,
    size: int,
) -> int
    decreases to - from,
{
    if to <= from {
        size
    } else {
        extended_size(extents, from, to - 1, size) + extents[to - 1].1.end - extents[to
            - 1].1.start
    }
}

impl SuperBlockWriter {
    /// The extents are ranges, and what they add up to can be counted.
    pub open spec fn wf(self) -> bool {
        &&& self.used <= self.existing_extents@.len()
        &&& forall|i: int|
            0 <= i < self.existing_extents@.len() ==> (#[trigger] self.existing_extents@[i]).1.start
                <= self.existing_extents@[i].1.end
        &&& forall|i: int|
            self.used <= i <= self.existing_extents@.len() ==> #[trigger] self.size_at(i)
                <= u64::MAX
    }

    /// The size once the extents up to `index` are in use.
    pub open spec fn size_at(self, index: int) -> int {
        extended_size(self.existing_extents@, self.used as int, index, self.size as int)
    }

    /// The extent at `index` is needed to reach `target_size`, and stands where those before it end.
    pub open spec fn joins(self, index: int, target_size: u64) -> bool {
        &&& self.size_at(index) < target_size
        &&& self.existing_extents@[index].0 == self.size_at(index)
    }

    /// Starts a super-block in the extents that the file has already.
    pub fn new(existing_extents: Vec<(u64, DeviceRange)>) -> (writer: Self)
        ensures
            writer.existing_extents == existing_extents,
            writer.used == 0,
            writer.size == 0,
    {
        SuperBlockWriter { existing_extents, used: 0, size: 0 }
    }

    /// The extents `from` up to `to` came into use for `target_size`: each was needed, and stands where the
    /// one before it ends.
    pub open spec fn pulls(
        self,
        extents: Seq<DeviceRange>,
        to: int,
        target_size: u64,
    ) -> bool {
        &&& self.used <= to <= self.existing_extents@.len()
        &&& forall|i: int| self.used <= i < to ==> #[trigger] self.joins(i, target_size)
        &&& extents == Seq::new(
            (to - self.used) as nat,
            |i: int| self.existing_extents@[self.used + i].1,
        )
    }

    /// The next extent, at `index`, does not stand where those before it end.
    pub open spec fn is_hole(self, index: int) -> bool {
        index < self.existing_extents@.len() && self.existing_extents@[index].0 != self.size_at(index)
    }

    /// Pulls ranges from the list of existing extents until the size reaches `target_size`, if there are
    /// enough, and returns them, so that corresponding extent records can be written.  The extent behind
    /// a hole is taken off the list, but it does not come into use.
    pub fn try_extend_existing(&mut self, target_size: u64) -> (extents: Result<
        Vec<DeviceRange>,
        HoleError,
    >)
        requires
            old(self).wf(),
        ensures
            final(self).wf(),
            final(self).existing_extents == old(self).existing_extents,
            match extents {
                Ok(extents) => {
                    &&& old(self).pulls(extents@, final(self).used as int, target_size)
                    &&& final(self).size == old(self).size_at(final(self).used as int)
                    &&& final(self).size >= target_size || final(self).used
                        == final(self).existing_extents@.len()
                },
                Err(error) => {
                    &&& final(self).used > 0
                    &&& old(self).pulls(error.extents@, final(self).used - 1, target_size)
                    &&& final(self).size == old(self).size_at(final(self).used - 1)
                    &&& final(self).size < target_size
                    &&& old(self).is_hole(final(self).used - 1)
                },
            },
    {
        let ghost start = *self;
        let mut extents: Vec<DeviceRange> = Vec::new();
        while self.size < target_size && self.used < self.existing_extents.len()
            invariant
                start == *old(self),
                start.wf(),
                self.wf(),
                self.existing_extents == start.existing_extents,
                start.used <= self.used <= start.existing_extents@.len(),
                self.size == start.size_at(self.used as int),
                forall|i: int|
                    start.used <= i < self.used ==> #[trigger] start.joins(i, target_size),
                extents@ == Seq::new(
                    (self.used - start.used) as nat,
                    |i: int| start.existing_extents@[start.used + i].1,
                ),
            decreases start.existing_extents@.len() - self.used,
        {
            let (offset, range) = self.existing_extents[self.used];
            let ghost before = *self;
            if offset != self.size {
                self.used = self.used + 1;
                proof {
                    reveal_with_fuel(extended_size, 2);
                    assert(before.existing_extents@[before.used as int].1 == range);
                    assert forall|i: int| self.used <= i <= self.existing_extents@.len() implies
                        #[trigger] self.size_at(i) <= u64::MAX by {
                        lemma_extended_size_from(
                            self.existing_extents@,
                            before.used as int,
                            self.used as int,
                            i,
                            self.size as int,
                        );
                        lemma_extended_size_shift(
                            self.existing_extents@,
                            self.used as int,
                            i,
                            self.size as int,
                            before.size_at(self.used as int),
                        );
                        assert(before.size_at(i) <= u64::MAX);
                    }
                    assert(start.pulls(extents@, self.used - 1, target_size));
                }
                return Err(HoleError { extents });
            }
            assert(start.size_at(self.used + 1) <= u64::MAX);
            self.size = self.size + (range.end - range.start);
            self.used = self.used + 1;
            extents.push(range);
            proof {
                assert forall|i: int| self.used <= i <= self.existing_extents@.len() implies
                    #[trigger] self.size_at(i) <= u64::MAX by {
                    lemma_extended_size_from(
                        start.existing_extents@,
                        start.used as int,
                        self.used as int,
                        i,
                        start.size as int,
                    );
                    assert(start.size_at(i) <= u64::MAX);
                }
                assert(start.joins(self.used - 1, target_size));
                assert(extents@ =~= Seq::new(
                    (self.used - start.used) as nat,
                    |i: int| start.existing_extents@[start.used + i].1,
                ));
            }
        }
        Ok(extents)
    }

    /// Returns how much of the file must be covered before a record is written at `file_offset`: the
    /// record must fit before the next extents are written.
    pub fn required_size(file_offset: u64) -> (size: u64)
        requires
            file_offset + SUPER_BLOCK_CHUNK_SIZE <= u64::MAX,
        ensures
            size == file_offset + SUPER_BLOCK_CHUNK_SIZE,
    {
        file_offset + SUPER_BLOCK_CHUNK_SIZE
    }

    /// Returns the range of the file that has to be allocated so that it is covered up to
    /// `required_size`, once the existing extents are used up: one chunk, if any.
    pub fn range_to_allocate(&self, required_size: u64) -> (range: Option<Range<u64>>)
        requires
            self.size + SUPER_BLOCK_CHUNK_SIZE <= u64::MAX,
        ensures
            match range {
                Some(range) => {
                    &&& required_size > self.size
                    &&& range.start == self.size
                    &&& range.end == self.size + SUPER_BLOCK_CHUNK_SIZE
                },
                None => required_size <= self.size,
            },
    {
        if required_size > self.size {
            Some(self.size..self.size + SUPER_BLOCK_CHUNK_SIZE)
        } else {
            None
        }
    }

    /// Prepares to write a record at `file_offset`: returns the existing extents that come into use, and
    /// the range of the file that has to be allocated, if they are not enough.
    pub fn write_root_parent_item(&mut self, file_offset: u64) -> (prepared: Result<
        (Vec<DeviceRange>, Option<Range<u64>>),
        HoleError,
    >)
        requires
            old(self).wf(),
            file_offset + SUPER_BLOCK_CHUNK_SIZE <= u64::MAX,
            old(self).size_at(old(self).existing_extents@.len() as int) + SUPER_BLOCK_CHUNK_SIZE
                <= u64::MAX,
        ensures
            final(self).wf(),
            final(self).existing_extents == old(self).existing_extents,
            match prepared {
                Ok((extents, range)) => {
                    &&& old(self).pulls(
                        extents@,
                        final(self).used as int,
                        (file_offset + SUPER_BLOCK_CHUNK_SIZE) as u64,
                    )
                    &&& final(self).size == old(self).size_at(final(self).used as int)
                    &&& match range {
                        Some(range) => {
                            &&& final(self).used == final(self).existing_extents@.len()
                            &&& final(self).size < file_offset + SUPER_BLOCK_CHUNK_SIZE
                            &&& range.start == final(self).size
                            &&& range.end == final(self).size + SUPER_BLOCK_CHUNK_SIZE
                        },
                        None => file_offset + SUPER_BLOCK_CHUNK_SIZE <= final(self).size,
                    }
                },
                Err(error) => {
                    &&& final(self).used > 0
                    &&& old(self).pulls(
                        error.extents@,
                        final(self).used - 1,
                        (file_offset + SUPER_BLOCK_CHUNK_SIZE) as u64,
                    )
                    &&& final(self).size == old(self).size_at(final(self).used - 1)
                    &&& final(self).size < file_offset + SUPER_BLOCK_CHUNK_SIZE
                    &&& old(self).is_hole(final(self).used - 1)
                },
            },
    {
        let min_len: u64 = SuperBlockWriter::required_size(file_offset);
        match self.try_extend_existing(min_len) {
            Err(error) => Err(error),
            Ok(extents) => {
                if min_len > self.size {
                    let range = self.range_to_allocate(min_len);
                    Ok((extents, range))
                } else {
                    Ok((extents, None))
                }
            },
        }
    }

    /// Returns the records to write for `record`, once what `write_root_parent_item` asked for has been
    /// allocated: the extents that come into use stand before it, so that a reader knows them before it
    /// needs them.  `left` is what could not be allocated.
    pub fn add_item(
        &mut self,
        existing: Vec<DeviceRange>,
        allocated: Vec<DeviceRange>,
        left: Range<u64>,
        record: ObjectItem,
    ) -> (records: Result<Vec<SuperBlockRecord>, NoSpaceError>)
        requires
            forall|i: int|
                0 <= i < allocated@.len() ==> (#[trigger] allocated@[i]).start <= allocated@[i].end,
            old(self).size + covered(allocated@) <= u64::MAX,
        ensures
            final(self).used == old(self).used,
            final(self).existing_extents == old(self).existing_extents,
            match records {
                Ok(records) => {
                    &&& left.start >= left.end
                    &&& records@ == item_layout(existing@ + allocated@, record)
                    &&& final(self).size == old(self).size + covered(allocated@)
                },
                Err(_) => {
                    &&& left.start < left.end
                    &&& final(self).size == old(self).size
                },
            },
    {
        if left.start < left.end {
            return Err(NoSpaceError);
        }
        let mut records: Vec<SuperBlockRecord> = Vec::new();
        let existing_len: usize = existing.len();
        let mut i: usize = 0;
        while i < existing_len
            invariant
                i <= existing_len,
                existing_len == existing@.len(),
                *self == *old(self),
                records@ == extent_records(existing@.take(i as int)),
            decreases existing_len - i,
        {
            records.push(SuperBlockRecordV47::Extent(existing[i]));
            assert(records@ =~= extent_records(existing@.take(i + 1)));
            i += 1;
        }
        assert(existing@.take(existing_len as int) =~= existing@);
        let allocated_len: usize = allocated.len();
        let mut k: usize = 0;
        assert(existing@ + allocated@.take(0) =~= existing@);
        while k < allocated_len
            invariant
                k <= allocated_len,
                allocated_len == allocated@.len(),
                forall|i: int|
                    0 <= i < allocated@.len() ==> (#[trigger] allocated@[i]).start
                        <= allocated@[i].end,
                old(self).size + covered(allocated@) <= u64::MAX,
                self.used == old(self).used,
                self.existing_extents == old(self).existing_extents,
                self.size == old(self).size + covered(allocated@.take(k as int)),
                records@ == extent_records(existing@ + allocated@.take(k as int)),
            decreases allocated_len - k,
        {
            let range = allocated[k];
            proof {
                let taken = allocated@.take(k + 1);
                assert(taken.drop_last() =~= allocated@.take(k as int));
                assert(existing@ + taken =~= (existing@ + allocated@.take(k as int)).push(range));
                lemma_covered_prefix(allocated@, k + 1);
            }
            self.size = self.size + (range.end - range.start);
            records.push(SuperBlockRecordV47::Extent(range));
            assert(records@ =~= extent_records(existing@ + allocated@.take(k + 1)));
            k += 1;
        }
        assert(allocated@.take(allocated_len as int) =~= allocated@);
        records.push(SuperBlockRecordV47::ObjectItem(record));
        Ok(records)
    }

    /// Ends the super-block.  Returns the records that are still to be written.
    pub fn finalize(self) -> (records: Vec<SuperBlockRecord>)
        ensures
            records@ == seq![SuperBlockRecordV47::End],
    {
        let mut records: Vec<SuperBlockRecord> = Vec::new();
        records.push(SuperBlockRecordV47::End);
        assert(records@ =~= seq![SuperBlockRecordV47::End]);
        records
    }

    /// Returns the length that a super-block file is cut to when `file_offset` bytes were written.
    pub fn final_len(file_offset: u64) -> (len: u64)
        requires
            file_offset + SUPER_BLOCK_CHUNK_SIZE <= u64::MAX,
        ensures
            len == (if file_offset > MIN_SUPER_BLOCK_SIZE {
                file_offset
            } else {
                MIN_SUPER_BLOCK_SIZE
            }) + SUPER_BLOCK_CHUNK_SIZE,
    {
        let written: u64 = if file_offset > MIN_SUPER_BLOCK_SIZE {
            file_offset
        } else {
            MIN_SUPER_BLOCK_SIZE
        };
        written + SUPER_BLOCK_CHUNK_SIZE
    }
}

/// The records that name some extents.
pub open spec fn extent_records(extents: Seq<DeviceRange>) -> Seq<SuperBlockRecord> {
    extents.map_values(|extent: DeviceRange| SuperBlockRecordV47::Extent(extent))
}

/// The records that are written for an item, with the extents that come into use for it.
pub open spec fn item_layout(extents: Seq<DeviceRange>, item: ObjectItem) -> Seq<SuperBlockRecord> {
    extent_records(extents).push(SuperBlockRecordV47::ObjectItem(item))
}

/// The records that are written for some items, one after the other.
pub open spec fn layout(items: Seq<(Seq<DeviceRange>, ObjectItem)>) -> Seq<SuperBlockRecord>
    decreases items.len(),
{
    if items.len() == 0 {
        Seq::empty()
    } else {
        layout(items.drop_last()) + item_layout(items.last().0, items.last().1)
    }
}

/// All the extents that come into use for some items.
pub open spec fn all_extents(items: Seq<(Seq<DeviceRange>, ObjectItem)>) -> Seq<DeviceRange>
    decreases items.len(),
{
    if items.len() == 0 {
        Seq::empty()
    } else {
        all_extents(items.drop_last()) + items.last().0
    }
}

/// The root parent store once some items have been replayed into it.
pub open spec fn with_items(
    root_parent: ObjectStore,
    items: Seq<(Seq<DeviceRange>, ObjectItem)>,
) -> ObjectStore
    decreases items.len(),
{
    if items.len() == 0 {
        root_parent
    } else {
        with_item(with_items(root_parent, items.drop_last()), items.last().1)
    }
}

proof fn lemma_plus_extents(view: ReaderView, extents: Seq<DeviceRange>)
    ensures
        view.plus_all(extent_records(extents)) == (ReaderView {
            extents: view.extents + extents,
            ..view
        }),
    decreases extents.len(),
{
    let records = extent_records(extents);
    if extents.len() > 0 {
        lemma_plus_extents(view, extents.drop_last());
        assert(records.drop_last() =~= extent_records(extents.drop_last()));
        assert(view.plus_all(records).extents =~= view.extents + extents);
    }
    assert(view.plus_all(records) =~= (ReaderView { extents: view.extents + extents, ..view }));
}

proof fn lemma_plus_concat(
    view: ReaderView,
    first: Seq<SuperBlockRecord>,
    second: Seq<SuperBlockRecord>,
)
    ensures
        view.plus_all(first + second) == view.plus_all(first).plus_all(second),
    decreases second.len(),
{
    if second.len() == 0 {
        assert(first + second =~= first);
    } else {
        assert((first + second).drop_last() =~= first + second.drop_last());
        lemma_plus_concat(view, first, second.drop_last());
    }
}

/// What a super-block is read as is what was written, up to the record that ends it: every item, in
/// order, is inserted in the tree of the root parent store, and every extent that came into use is known.
pub proof fn lemma_read_gives_back_what_was_written(
    view: ReaderView,
    items: Seq<(Seq<DeviceRange>, ObjectItem)>,
)
    ensures
        view.plus_all(layout(items).push(SuperBlockRecordV47::End)) == (ReaderView {
            root_parent: with_items(view.root_parent, items),
            extents: view.extents + all_extents(items),
            changes: view.changes + items.map_values(
                |item: (Seq<DeviceRange>, ObjectItem)| TreeChange::Insert(item.1),
            ),
        }),
        forall|i: int| 0 <= i < layout(items).len() ==> !(#[trigger] layout(items)[i] is End),
{
    lemma_items_are_read(view, items);
    lemma_layout_goes_on(items);
    let records = layout(items).push(SuperBlockRecordV47::End);
    assert(records.drop_last() =~= layout(items));
}

/// Nothing ends a super-block before its last item.
proof fn lemma_layout_goes_on(items: Seq<(Seq<DeviceRange>, ObjectItem)>)
    ensures
        forall|i: int| 0 <= i < layout(items).len() ==> !(#[trigger] layout(items)[i] is End),
    decreases items.len(),
{
    if items.len() > 0 {
        let before = layout(items.drop_last());
        let chunk = item_layout(items.last().0, items.last().1);
        lemma_layout_goes_on(items.drop_last());
        assert forall|i: int| 0 <= i < layout(items).len() implies !(
        #[trigger] layout(items)[i] is End) by {
            if i < before.len() {
                assert(layout(items)[i] == before[i]);
            } else {
                assert(layout(items)[i] == chunk[i - before.len()]);
            }
        }
    }
}

proof fn lemma_items_are_read(view: ReaderView, items: Seq<(Seq<DeviceRange>, ObjectItem)>)
    ensures
        view.plus_all(layout(items)) == (ReaderView {
            root_parent: with_items(view.root_parent, items),
            extents: view.extents + all_extents(items),
            changes: view.changes + items.map_values(
                |item: (Seq<DeviceRange>, ObjectItem)| TreeChange::Insert(item.1),
            ),
        }),
    decreases items.len(),
{
    let after = view.plus_all(layout(items));
    let changes = items.map_values(
        |item: (Seq<DeviceRange>, ObjectItem)| TreeChange::Insert(item.1),
    );
    if items.len() == 0 {
        assert(view.changes + changes =~= view.changes);
        assert(view.extents + all_extents(items) =~= view.extents);
    } else {
        let (extents, item) = items.last();
        let before = view.plus_all(layout(items.drop_last()));
        lemma_items_are_read(view, items.drop_last());
        lemma_plus_concat(view, layout(items.drop_last()), item_layout(extents, item));
        let chunk = item_layout(extents, item);
        assert(chunk.drop_last() =~= extent_records(extents));
        lemma_plus_extents(before, extents);
        assert(after.extents =~= view.extents + all_extents(items));
        assert(after.changes =~= view.changes + changes);
    }
}

proof fn lemma_extended_size_shift(
    extents: Seq<(u64, DeviceRange)>,
    from: int,
    to: int,
    size: int,
    larger: int,
)
    requires
        size <= larger,
    ensures
        extended_size(extents, from, to, size) <= extended_size(extents, from, to, larger),
    decreases to - from,
{
    if from < to {
        lemma_extended_size_shift(extents, from, to - 1, size, larger);
    }
}

proof fn lemma_extended_size_from(
    extents: Seq<(u64, DeviceRange)>,
    from: int,
    mid: int,
    to: int,
    size: int,
)
    requires
        from <= mid <= to,
    ensures
        extended_size(extents, from, to, size) == extended_size(
            extents,
            mid,
            to,
            extended_size(extents, from, mid, size),
        ),
    decreases to - mid,
{
    if mid < to {
        lemma_extended_size_from(extents, from, mid, to - 1, size);
    }
}

/// Super-block A is object 1 and lies at the start of the device, super-block B is object 2 and lies 512 KiB behind it;
/// the first extent of each is 4 KiB long.
pub proof fn lemma_where_super_blocks_lie(instance: SuperBlockInstance)
    ensures
        ({
            let extent = instance.spec_first_extent();
            &&& extent.end - extent.start == 4096
            &&& instance == SuperBlockInstance::A ==> instance.spec_object_id() == 1 && extent.start == 0
            &&& instance == SuperBlockInstance::B ==> instance.spec_object_id() == 2 && extent.start
                == 512 * 1024
            &&& extent.start == instance.start()
        }),
{
}

/// A super-block that does not describe its first extent itself, which is any from before version 45, has one that
/// begins where its instance lies: 512 KiB up to version 43, and 4 KiB at version 44.
pub proof fn lemma_assumed_extents_go_by_the_version(version: Version, instance: SuperBlockInstance)
    ensures
        spec_assumed_extent(version, instance) is Some <==> version.major < 45,
        spec_assumed_extent(version, instance) matches Some(extent) ==> {
            &&& extent.start == instance.spec_first_extent().start
            &&& version.major <= 43 ==> extent.end - extent.start == 512 * 1024
            &&& version.major == 44 ==> extent == instance.spec_first_extent()
        },
{
}

/// A super-block can be used if and only if it starts with "FxfsSupr" and neither it, nor the journal, nor anything else in
/// the filesystem is of a version from before the earliest supported one.
pub proof fn lemma_usable_headers(
    header: SuperBlockHeader,
    magic: Seq<u8>,
    super_block_version: Version,
    earliest_supported: Version,
)
    requires
        magic.len() == 8,
    ensures
        ({
            let error = header.header_error(magic, super_block_version, earliest_supported);
            let right = forall|i: int| 0 <= i < 8 ==> #[trigger] magic[i] as int == "FxfsSupr"@[i] as int;
            let old_block = super_block_version.before(earliest_supported);
            let old_journal = header.journal_checkpoint.version.before(earliest_supported);
            let old_struct = header.earliest_version.before(earliest_supported);
            &&& error is None <==> right && !old_block && !old_journal && !old_struct
            &&& error == Some(HeaderError::InvalidMagic) <==> !right
            &&& error == Some(HeaderError::UnsupportedSuperBlockVersion) <==> right && old_block
            &&& error == Some(HeaderError::UnsupportedJournalCheckpointVersion) <==> right && !old_block
                && old_journal
            &&& error == Some(HeaderError::UnsupportedStructVersion) <==> right && !old_block
                && !old_journal && old_struct
        }),
{
    reveal_strlit("FxfsSupr");
    assert("FxfsSupr"@.len() == 8);
    let right = forall|i: int| 0 <= i < 8 ==> #[trigger] magic[i] as int == "FxfsSupr"@[i] as int;
    if right {
        assert(magic =~= super_block_magic()) by {
            assert forall|i: int| 0 <= i < 8 implies magic[i] == super_block_magic()[i] by {
                assert(magic[i] as int == "FxfsSupr"@[i] as int);
            }
        }
    }
}

/// An item that is replayed is counted as applied.  If it is an object, it counts as one more, and its identifier as used;
/// nothing else of the root parent store changes.
pub proof fn lemma_replayed_items_are_counted(root_parent: ObjectStore, item: ObjectItem)
    requires
        root_parent.store_info is Some,
        root_parent.counters.mutations_applied < u64::MAX,
    ensures
        ({
            let after = with_item(root_parent, item);
            let before = root_parent.store_info->0.object_count;
            &&& after.counters.mutations_applied == root_parent.counters.mutations_applied + 1
            &&& after.store_info is Some
            &&& item.value is Object && before < u64::MAX ==> after.store_info->0.object_count == before + 1
            &&& !(item.value is Object) ==> after.store_info == root_parent.store_info
                && after.last_object_id == root_parent.last_object_id
            &&& item.value is Object ==> after.last_object_id.id >= item.key.object_id
            &&& after.last_object_id.id >= root_parent.last_object_id.id
            &&& after.last_object_id.id == root_parent.last_object_id.id || after.last_object_id.id
                == item.key.object_id
            &&& after.store_info->0.graveyard_directory_object_id
                == root_parent.store_info->0.graveyard_directory_object_id
            &&& after.store_object_id == root_parent.store_object_id
            &&& after.lock_state == root_parent.lock_state
            &&& after.parent_store == root_parent.parent_store
        }),
{
    let mutation = ObjectStoreMutationV47 {
        item: ObjectItem { key: item.key, value: item.value, sequence: 0 },
        op: OperationV32::Insert,
    };
    lemma_objects_are_counted(root_parent, mutation, true, None);
    if item.value is Object {
        lemma_replayed_identifiers_count_as_used(root_parent, mutation, 0);
    }
    lemma_counting_counts_one(root_parent.applied(MutationV47::ObjectStore(mutation), true, None));
}

/// An extent that is read is noted behind those before it and changes nothing else.  An item is inserted in the tree, behind
/// all before it, and known extents stay.  The end changes nothing.
pub proof fn lemma_records_are_taken_one_by_one(view: ReaderView, record: SuperBlockRecord)
    ensures
        ({
            let after = view.plus(record);
            &&& record matches SuperBlockRecordV47::Extent(extent) ==> {
                &&& after.extents.len() == view.extents.len() + 1
                &&& after.extents.last() == extent
                &&& after.extents.drop_last() == view.extents
                &&& after.changes == view.changes
                &&& after.root_parent == view.root_parent
            }
            &&& record matches SuperBlockRecordV47::ObjectItem(item) ==> {
                &&& after.changes.len() == view.changes.len() + 1
                &&& after.changes.last() == TreeChange::Insert(item)
                &&& after.changes.drop_last() == view.changes
                &&& after.extents == view.extents
            }
            &&& record is End ==> after == view
        }),
{
    let after = view.plus(record);
    if record is Extent {
        assert(after.extents.drop_last() =~= view.extents);
    }
    if record is ObjectItem {
        assert(after.changes.drop_last() =~= view.changes);
    }
}

/// A super-block is used if there is one that is valid: no valid one has a greater generation.
pub proof fn lemma_greatest_generation_is_used(a: Option<u64>, b: Option<u64>)
    ensures
        chosen_instance(a, b) is None <==> a is None && b is None,
        chosen_instance(a, b) matches Some(instance) ==> {
            let (used, other) = if instance == SuperBlockInstance::A {
                (a, b)
            } else {
                (b, a)
            };
            &&& used is Some
            &&& other matches Some(generation) ==> generation <= used->0
            &&& other == used ==> instance == SuperBlockInstance::A
        },
{
}

/// A super-block has a generation if it could be read: that of its header.
pub proof fn lemma_only_what_was_read_has_a_generation<E>(read: Result<LoadedSuperBlock, E>)
    ensures
        loaded_generation(read) is Some <==> read is Ok,
        read matches Ok(loaded) ==> loaded_generation(read) == Some(loaded.header.generation),
{
}

/// Ranges cover what each of them covers.
pub proof fn lemma_ranges_cover_what_each_covers(first: Seq<DeviceRange>, second: Seq<DeviceRange>, one: DeviceRange)
    ensures
        covered(first + second) == covered(first) + covered(second),
        covered(seq![one]) == one.end - one.start,
    decreases second.len(),
{
    reveal_with_fuel(covered, 2);
    assert(seq![one].drop_last() =~= Seq::<DeviceRange>::empty());
    if second.len() == 0 {
        assert(first + second =~= first);
    } else {
        lemma_ranges_cover_what_each_covers(first, second.drop_last(), one);
        assert((first + second).drop_last() =~= first + second.drop_last());
        assert((first + second).last() == second.last());
    }
}

/// The size that extents add up to is what they cover, on top of the size before.
pub proof fn lemma_extents_add_up(extents: Seq<(u64, DeviceRange)>, from: int, to: int, size: int)
    requires
        0 <= from <= to <= extents.len(),
    ensures
        extended_size(extents, from, to, size) == size + covered(
            Seq::new((to - from) as nat, |i: int| extents[from + i].1),
        ),
    decreases to - from,
{
    let ranges = Seq::new((to - from) as nat, |i: int| extents[from + i].1);
    if from < to {
        lemma_extents_add_up(extents, from, to - 1, size);
        assert(ranges.drop_last() =~= Seq::new((to - 1 - from) as nat, |i: int| extents[from + i].1));
        assert(ranges.last() == extents[to - 1].1);
    }
}

/// The extents that come into use follow those in use: each stands at the offset up to which the file is covered by those
/// before it, and is needed, for these fall short of the size that is aimed at.  None in between is left out.
pub proof fn lemma_extents_in_use_adjoin(
    writer: SuperBlockWriter,
    extents: Seq<DeviceRange>,
    to: int,
    target_size: u64,
    index: int,
)
    requires
        writer.pulls(extents, to, target_size),
        0 <= index < extents.len(),
    ensures
        extents.len() == to - writer.used,
        extents[index] == writer.existing_extents@[writer.used + index].1,
        writer.existing_extents@[writer.used + index].0 == writer.size + covered(extents.take(index)),
        writer.size + covered(extents.take(index)) < target_size,
        writer.size_at(to) == writer.size + covered(extents),
{
    let at = writer.used + index;
    assert(writer.joins(at, target_size));
    lemma_extents_add_up(writer.existing_extents@, writer.used as int, at, writer.size as int);
    assert(extents.take(index) =~= Seq::new(
        (at - writer.used) as nat,
        |i: int| writer.existing_extents@[writer.used + i].1,
    ));
    lemma_extents_add_up(writer.existing_extents@, writer.used as int, to, writer.size as int);
    assert(extents =~= Seq::new(
        (to - writer.used) as nat,
        |i: int| writer.existing_extents@[writer.used + i].1,
    ));
}

/// There is a hole before an extent that does not stand where those before it end; there is none behind the last extent.
pub proof fn lemma_holes_lie_before_extents(writer: SuperBlockWriter, index: int)
    requires
        writer.used <= index <= writer.existing_extents@.len(),
    ensures
        index == writer.existing_extents@.len() ==> !writer.is_hole(index),
        index < writer.existing_extents@.len() ==> (writer.is_hole(index)
            <==> writer.existing_extents@[index].0 != writer.size + covered(
            Seq::new((index - writer.used) as nat, |i: int| writer.existing_extents@[writer.used + i].1),
        )),
{
    lemma_extents_add_up(writer.existing_extents@, writer.used as int, index, writer.size as int);
}

/// What is written for an item are records of the extents that come into use for it, in order, and only behind them the item,
/// so that a reader knows where to read on before it gets there.
pub proof fn lemma_extents_stand_before_the_item(extents: Seq<DeviceRange>, item: ObjectItem, index: int)
    ensures
        ({
            let records = item_layout(extents, item);
            &&& records.len() == extents.len() + 1
            &&& records.last() == SuperBlockRecordV47::ObjectItem(item)
            &&& 0 <= index < extents.len() ==> records[index] == SuperBlockRecordV47::Extent(extents[index])
        }),
{
}

} // verus!
