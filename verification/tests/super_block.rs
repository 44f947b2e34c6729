use fxfs::guid::UuidWrapperV32;
use fxfs::journal::{JournalCheckpoint, Version};
use fxfs::object_record::{ObjectAttributes, ObjectItem, ObjectKey, ObjectKind, ObjectValue, Timestamp};
use fxfs::object_store::TreeChange;
use fxfs::super_block::{
    assumed_extent, check_magic, HeaderError, LoadedSuperBlock, ReadResult, RecordError,
    SuperBlockHeaderV32, SuperBlockInstance, SuperBlockManager, SuperBlockReader,
    SuperBlockRecordV47, SuperBlockWriter, SUPER_BLOCK_CHUNK_SIZE,
};
use fxfs::transaction::DeviceRangeV32;

fn version(major: u32) -> Version {
    Version { major, minor: 0 }
}

fn checkpoint() -> JournalCheckpoint {
    JournalCheckpoint { file_offset: 0, checksum: 0, version: version(47) }
}

fn header(generation: u64) -> SuperBlockHeaderV32 {
    let mut header = SuperBlockHeaderV32::new(3, 30, 4, 5, 6, checkpoint(), version(46));
    header.generation = generation;
    header
}

fn loaded(generation: u64) -> LoadedSuperBlock {
    let header = header(generation);
    let root_parent = header.root_parent(4096);
    LoadedSuperBlock { header, root_parent }
}

fn range(start: u64, end: u64) -> DeviceRangeV32 {
    DeviceRangeV32 { start, end }
}

fn item(object_id: u64) -> ObjectItem {
    let zero = Timestamp::from_nanos(0);
    let mut item = ObjectItem::new(
        ObjectKey::object(object_id),
        ObjectValue::Object {
            kind: ObjectKind::File { refs: 1 },
            attributes: ObjectAttributes {
                creation_time: zero,
                modification_time: zero,
                project_id: 0,
                posix_attributes: None,
                allocated_size: 0,
                access_time: zero,
                change_time: zero,
            },
        },
    );
    item.sequence = object_id * 100;
    item
}

#[test]
fn instances() {
    assert_eq!(SuperBlockInstance::A.next(), SuperBlockInstance::B);
    assert_eq!(SuperBlockInstance::B.next(), SuperBlockInstance::A);
    assert_eq!(SuperBlockInstance::A.object_id(), 1);
    assert_eq!(SuperBlockInstance::B.object_id(), 2);
    assert_eq!(SuperBlockInstance::A.first_extent(), 0..4096);
    assert_eq!(SuperBlockInstance::B.first_extent(), 524288..528384);
    assert_eq!(SuperBlockInstance::B.legacy_first_extent(), 524288..1048576);
}

#[test]
fn new_headers() {
    let header = header(1);
    assert!(!header.guid.is_nil());
    assert_eq!(header.guid.as_str(), "<redacted>");
    assert_eq!(header.guid.0[6] >> 4, 4);
    assert_eq!(header.generation, 1);
    assert_eq!(header.root_store_object_id, 4);
    assert!(header.journal_file_offsets.is_empty());
    assert_ne!(header.guid.0, UuidWrapperV32::new().0);
}

#[test]
fn test_guid_assign_on_read() {
    let mut nil = header(1);
    nil.guid = UuidWrapperV32::nil();
    let (read, _) = SuperBlockHeaderV32::read_header(
        b"FxfsSupr",
        nil,
        &version(47),
        &version(40),
        SuperBlockInstance::A,
    )
    .ok()
    .expect("read failed");
    assert!(!read.guid.is_nil());
    // A GUID that is there stays.
    let guid = read.guid;
    let (read, _) = SuperBlockHeaderV32::read_header(
        b"FxfsSupr",
        read,
        &version(47),
        &version(40),
        SuperBlockInstance::A,
    )
    .ok()
    .expect("read failed");
    assert_eq!(read.guid.0, guid.0);
}

#[test]
fn headers_are_checked() {
    assert_eq!(check_magic(b"FxfsSupr"), Ok(()));
    assert_eq!(check_magic(b"fxfsSupr"), Err(HeaderError::InvalidMagic));
    let read = |magic, header, super_block_version| {
        SuperBlockHeaderV32::read_header(
            magic,
            header,
            &super_block_version,
            &version(45),
            SuperBlockInstance::B,
        )
        .err()
    };
    assert_eq!(read(b"FxfsSupr", header(1), version(47)), None);
    assert_eq!(read(b"FxfsSupp", header(1), version(47)), Some(HeaderError::InvalidMagic));
    assert_eq!(
        read(b"FxfsSupr", header(1), version(44)),
        Some(HeaderError::UnsupportedSuperBlockVersion)
    );
    let mut old_journal = header(1);
    old_journal.journal_checkpoint.version = version(44);
    assert_eq!(
        read(b"FxfsSupr", old_journal, version(47)),
        Some(HeaderError::UnsupportedJournalCheckpointVersion)
    );
    let mut old_struct = header(1);
    old_struct.earliest_version = version(44);
    assert_eq!(
        read(b"FxfsSupr", old_struct, version(47)),
        Some(HeaderError::UnsupportedStructVersion)
    );
}

#[test]
fn older_super_blocks_assume_an_extent() {
    assert_eq!(
        assumed_extent(&version(43), SuperBlockInstance::B),
        Some(range(524288, 1048576))
    );
    assert_eq!(assumed_extent(&version(44), SuperBlockInstance::A), Some(range(0, 4096)));
    assert_eq!(assumed_extent(&version(45), SuperBlockInstance::A), None);
    let (_, reader) = SuperBlockHeaderV32::read_header(
        b"FxfsSupr",
        header(1),
        &version(43),
        &version(40),
        SuperBlockInstance::B,
    )
    .ok()
    .unwrap();
    assert_eq!(reader.extents, vec![range(524288, 528384), range(524288, 1048576)]);
}

#[test]
fn test_alternating_super_blocks() {
    let mut manager = SuperBlockManager::new();
    assert_eq!(manager.take_next_object_id(), 1);
    assert_eq!(manager.take_next_object_id(), 2);
    assert_eq!(manager.take_next_object_id(), 1);

    // The second super-block is the latest one.
    let mut manager = SuperBlockManager::new();
    let read = manager.load::<()>(Ok(loaded(1)), Ok(loaded(2))).unwrap_or_else(|_| unreachable!());
    assert_eq!(read.header.generation, 2);
    // The next save goes to the first one.
    assert_eq!(manager.take_next_object_id(), 1);
    let read = manager.load::<()>(Ok(loaded(3)), Ok(loaded(2))).unwrap_or_else(|_| unreachable!());
    assert_eq!(read.header.generation, 3);
    assert_eq!(manager.take_next_object_id(), 2);

    // If one of them cannot be read, the other is used.
    let read = manager.load(Err("broken"), Ok(loaded(2))).unwrap_or_else(|_| unreachable!());
    assert_eq!(read.header.generation, 2);
    assert_eq!(manager.next_instance, SuperBlockInstance::A);
    let read = manager.load(Ok(loaded(1)), Err("broken")).unwrap_or_else(|_| unreachable!());
    assert_eq!(read.header.generation, 1);
    assert_eq!(manager.next_instance, SuperBlockInstance::B);
    assert_eq!(manager.load(Err("a"), Err("b")).err(), Some(("a", "b")));
    // A tie goes to the first one.
    let read = manager.load::<()>(Ok(loaded(7)), Ok(loaded(7))).unwrap_or_else(|_| unreachable!());
    assert_eq!(read.header.generation, 7);
    assert_eq!(manager.next_instance, SuperBlockInstance::B);
}

#[test]
fn test_read_written_super_block() {
    // Write some items; the file has an extent of 4096 bytes, and more is allocated as needed.
    let mut writer = SuperBlockWriter::new(vec![(0, range(0, 4096))]);
    let mut records = Vec::new();
    let mut offset = 100;
    for object_id in 10..13 {
        let (existing, allocate) = writer.write_root_parent_item(offset).unwrap();
        let allocated = match allocate {
            Some(file_range) => {
                assert_eq!(file_range.start, writer.size);
                assert_eq!(file_range.end, writer.size + SUPER_BLOCK_CHUNK_SIZE);
                vec![range(1 << 20, (1 << 20) + SUPER_BLOCK_CHUNK_SIZE)]
            }
            None => vec![],
        };
        records.append(&mut writer.add_item(existing, allocated, 0..0, item(object_id)).unwrap());
        offset += 100;
    }
    records.append(&mut writer.finalize());
    assert_eq!(records.len(), 3 + 2 + 1);
    assert!(matches!(records[5], SuperBlockRecordV47::End));

    // Read it back.
    let (header, reader) = SuperBlockHeaderV32::read_header(
        b"FxfsSupr",
        header(1),
        &version(47),
        &version(40),
        SuperBlockInstance::A,
    )
    .ok()
    .unwrap();
    let mut reader = SuperBlockReader::new(&header, 4096, reader);
    assert_eq!(reader.root_parent.counters.mutations_applied, 0);
    let last = records.len() - 1;
    for (i, record) in records.into_iter().enumerate() {
        assert_eq!(reader.read(ReadResult::Record(record)), Ok(i == last));
    }
    assert_eq!(
        reader.reader.extents,
        vec![range(0, 4096), range(0, 4096), range(1 << 20, (1 << 20) + SUPER_BLOCK_CHUNK_SIZE)]
    );
    let items: Vec<_> = reader
        .changes
        .iter()
        .map(|change| match change {
            TreeChange::Insert(item) => (item.key.object_id, item.sequence),
            _ => panic!("unexpected change"),
        })
        .collect();
    assert_eq!(items, vec![(10, 1000), (11, 1100), (12, 1200)]);
    assert_eq!(reader.root_parent.object_count(), 3);
    // The items are counted; the extents and the end are not.
    assert_eq!(reader.root_parent.counters.mutations_applied, 3);
    assert_eq!(reader.root_parent.last_object_id.id, 12);
    assert_eq!(reader.root_parent.graveyard_directory_object_id(), 30);
    assert_eq!(reader.root_parent.store_object_id(), 3);
}

#[test]
fn broken_records() {
    let new_reader = || {
        let (header, reader) = SuperBlockHeaderV32::read_header(
            b"FxfsSupr",
            header(1),
            &version(47),
            &version(40),
            SuperBlockInstance::A,
        )
        .ok()
        .unwrap();
        SuperBlockReader::new(&header, 4096, reader)
    };
    assert_eq!(new_reader().read(ReadResult::Reset), Err(RecordError::UnexpectedReset));
    assert_eq!(new_reader().read(ReadResult::ChecksumMismatch), Err(RecordError::ChecksumMismatch));
    assert_eq!(
        new_reader().read(ReadResult::Record(SuperBlockRecordV47::Extent(range(2, 1)))),
        Err(RecordError::Inconsistent)
    );
}

#[test]
fn extents_before_a_hole_come_into_use() {
    let extents = vec![(0, range(0, 4096)), (4096, range(8192, 12288)), (9000, range(0, 1))];
    let mut writer = SuperBlockWriter::new(extents);
    let error = writer.try_extend_existing(20000).unwrap_err();
    assert_eq!(error.extents, vec![range(0, 4096), range(8192, 12288)]);
    assert_eq!(writer.size, 8192);
    assert_eq!(writer.used, 3);
}

#[test]
fn super_blocks_grow() {
    let extents = vec![(0, range(0, 4096)), (4096, range(8192, 12288)), (9000, range(0, 1))];
    let mut writer = SuperBlockWriter::new(extents);
    assert_eq!(writer.try_extend_existing(1).unwrap(), vec![range(0, 4096)]);
    assert_eq!(writer.size, 4096);
    assert_eq!(writer.try_extend_existing(4096).unwrap(), vec![]);
    assert_eq!(writer.try_extend_existing(8192).unwrap(), vec![range(8192, 12288)]);
    // The file has a hole.
    assert_eq!(writer.try_extend_existing(8193).unwrap_err().extents, vec![]);
    assert_eq!(writer.size, 8192);
    // What is behind the hole is not looked at again.
    assert_eq!(writer.try_extend_existing(8193).unwrap(), vec![]);
    assert!(writer.add_item(vec![], vec![range(0, 100)], 1..2, item(10)).is_err());
    assert_eq!(writer.size, 8192);
    assert_eq!(SuperBlockWriter::required_size(5), 65541);
    assert_eq!(writer.range_to_allocate(8193), Some(8192..8192 + 65536));
    assert_eq!(writer.range_to_allocate(8192), None);
    assert_eq!(SuperBlockWriter::final_len(5), 4096 + 65536);
    assert_eq!(SuperBlockWriter::final_len(5000), 5000 + 65536);
}
