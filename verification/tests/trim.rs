use fxfs::errors::FxfsError;
use fxfs::lock_keys::{LockKey, LockKeys};
use fxfs::object_record::{
    AttributeKey, ExtentMode, ExtentValue, ObjectAttributes, ObjectItem, ObjectKey, ObjectKind,
    ObjectValue, Timestamp,
};
use fxfs::object_store::ObjectStore;
use fxfs::round::round_up;
use fxfs::transaction::{DeviceRangeV32, ObjectStoreMutationV47, OperationV32, Transaction};
use fxfs::trim::{
    trim_lock_keys, TombstoneMode, TrimMode, TrimResult, TrimScan, TrimStart, TrimStep,
    TRANSACTION_MUTATION_THRESHOLD,
};

const OBJECT: TrimMode = TrimMode::Tombstone(TombstoneMode::Object);
const ATTRIBUTE: TrimMode = TrimMode::Tombstone(TombstoneMode::Attribute);

fn size_record(object_id: u64, attribute_id: u64, size: u64) -> ObjectItem {
    ObjectItem::new(
        ObjectKey::attribute(object_id, attribute_id, AttributeKey::Attribute),
        ObjectValue::Attribute { size, has_overwrite_extents: false },
    )
}

fn extent(attribute_id: u64, start: u64, end: u64, device_offset: u64) -> ObjectItem {
    ObjectItem::new(
        ObjectKey::extent(9, attribute_id, start, end),
        ObjectValue::Extent(ExtentValue::Mapped {
            device_offset,
            mode: ExtentMode::Raw,
            key_id: 0,
        }),
    )
}

fn range(start: u64, end: u64) -> DeviceRangeV32 {
    DeviceRangeV32 { start, end }
}

fn start(mode: TrimMode, first: Option<&ObjectItem>) -> Result<u64, Result<TrimResult, FxfsError>> {
    match TrimScan::start(9, 0, mode, 512, first) {
        Ok(TrimStart::Scan(scan)) => Ok(scan.aligned_offset),
        Ok(TrimStart::Finished(result)) => Err(Ok(result)),
        Err(error) => Err(Err(error)),
    }
}

fn scan(mode: TrimMode) -> TrimScan {
    match TrimScan::start(9, 0, mode, 512, None) {
        Ok(TrimStart::Scan(scan)) => scan,
        _ => panic!("unexpected start"),
    }
}

#[test]
fn rounding_up() {
    assert_eq!(round_up(0, 512), Some(0));
    assert_eq!(round_up(1, 512), Some(512));
    assert_eq!(round_up(512, 512), Some(512));
    assert_eq!(round_up(u64::MAX, 512), None);
}

#[test]
fn where_trimming_starts() {
    assert_eq!(start(TrimMode::FromOffset(513), None), Ok(1024));
    assert_eq!(
        start(TrimMode::FromOffset(u64::MAX), None),
        Err(Err(FxfsError::Inconsistent))
    );
    assert_eq!(start(OBJECT, None), Ok(0));
    assert_eq!(start(ATTRIBUTE, None), Ok(0));
    assert_eq!(start(TrimMode::UseSize, None), Err(Ok(TrimResult::Done(None))));
    assert_eq!(start(TrimMode::UseSize, Some(&size_record(9, 0, 100))), Ok(512));
    assert_eq!(
        start(TrimMode::UseSize, Some(&size_record(9, 3, 100))),
        Err(Ok(TrimResult::Done(Some(3))))
    );
    assert_eq!(
        start(TrimMode::UseSize, Some(&size_record(10, 0, 100))),
        Err(Ok(TrimResult::Done(None)))
    );
    assert_eq!(
        start(TrimMode::UseSize, Some(&extent(0, 0, 512, 0))),
        Err(Ok(TrimResult::Done(Some(1))))
    );
    assert_eq!(
        start(TrimMode::UseSize, Some(&size_record(9, 0, u64::MAX))),
        Err(Err(FxfsError::Inconsistent))
    );
}

#[test]
fn extents_are_deallocated() {
    let mut scan = scan(TrimMode::FromOffset(1000));
    assert_eq!(scan.next(Some(&size_record(9, 0, 1000))), Ok(TrimStep::Advance));
    // Only what lies beyond the offset is deallocated.
    assert_eq!(
        scan.next(Some(&extent(0, 512, 2048, 4096))),
        Ok(TrimStep::Deallocate(range(4608, 5632)))
    );
    assert!(scan.deallocated(range(4608, 5632), 1));
    assert_eq!(
        scan.next(Some(&extent(0, 2048, 2560, 0))),
        Ok(TrimStep::Deallocate(range(0, 512)))
    );
    assert!(!scan.deallocated(range(0, 512), TRANSACTION_MUTATION_THRESHOLD));
    assert_eq!(scan.deallocated, 1536);
    assert_eq!(scan.end, 2560);
    assert_eq!(scan.result, TrimResult::Incomplete);
}

#[test]
fn extents_are_checked() {
    let next = |item: &ObjectItem| scan(TrimMode::FromOffset(1024)).next(Some(item));
    // It ends before the offset.
    assert_eq!(next(&extent(0, 0, 512, 0)), Err(FxfsError::Inconsistent));
    assert_eq!(next(&extent(0, 1024, 1536, 3)), Err(FxfsError::Inconsistent));
    assert_eq!(next(&extent(0, 1024, 1537, 0)), Err(FxfsError::Inconsistent));
    let deleted = ObjectItem::new(
        ObjectKey::extent(9, 0, 1024, 1536),
        ObjectValue::Extent(ExtentValue::Deleted),
    );
    assert_eq!(next(&deleted), Ok(TrimStep::Advance));
    assert_eq!(next(&size_record(10, 0, 0)), Ok(TrimStep::Finish));

    let mut scan = scan(OBJECT);
    assert_eq!(scan.next(Some(&extent(4, 0, 512, 0))), Ok(TrimStep::Finish));
    assert_eq!(scan.result, TrimResult::Done(Some(4)));
    assert_eq!(scan.next(None), Ok(TrimStep::Finish));
}

fn object(project_id: u64, allocated_size: u64) -> Option<ObjectStoreMutationV47> {
    let zero = Timestamp::from_nanos(0);
    let value = ObjectValue::Object {
        kind: ObjectKind::File { refs: 1 },
        attributes: ObjectAttributes {
            creation_time: zero,
            modification_time: zero,
            project_id,
            posix_attributes: None,
            allocated_size,
            access_time: zero,
            change_time: zero,
        },
    };
    Some(ObjectStoreMutationV47 {
        item: ObjectItem::new(ObjectKey::object(9), value),
        op: OperationV32::ReplaceOrInsert,
    })
}

fn transaction() -> Transaction {
    Transaction::new(trim_lock_keys(4, 9, 0))
}

#[test]
fn trimming_is_accounted_for() {
    assert_eq!(
        trim_lock_keys(4, 9, 1).iter().copied().collect::<Vec<_>>(),
        vec![LockKey::object_attribute(4, 9, 1), LockKey::object(4, 9)]
    );
    // Nothing to do.
    let mut t = transaction();
    let nothing = scan(TrimMode::FromOffset(512));
    assert!(!nothing.needs_object());
    assert_eq!(nothing.finish(&mut t, 4, 30, None), Ok(TrimResult::Done(None)));
    assert!(t.mutations().is_empty());

    let trimmed = |mode| {
        let mut scan = scan(mode);
        scan.end = 2048;
        scan.deallocated = 1024;
        assert!(scan.needs_object());
        scan
    };
    let mut t = transaction();
    assert_eq!(
        trimmed(TrimMode::FromOffset(512)).finish(&mut t, 4, 30, object(7, 5000)),
        Ok(TrimResult::Done(None))
    );
    assert_eq!(t.mutations().len(), 3);
    match t.get_object_mutation(4, ObjectKey::object(9)) {
        Some(mutation) => assert!(matches!(
            &mutation.item.value,
            ObjectValue::Object { attributes, .. } if attributes.allocated_size == 3976
        )),
        None => panic!("no change"),
    }
    match t.get_object_mutation(4, ObjectKey::project_usage(30, 7)) {
        Some(mutation) => assert!(matches!(
            mutation.item.value,
            ObjectValue::BytesAndNodes { bytes: -1024, nodes: 0 }
        )),
        None => panic!("no change"),
    }
    match t.get_object_mutation(4, ObjectKey::extent(9, 0, 512, 2048)) {
        Some(mutation) => assert!(matches!(
            mutation.item.value,
            ObjectValue::Extent(ExtentValue::Deleted)
        )),
        None => panic!("no change"),
    }
    let mut t = transaction();
    assert_eq!(
        trimmed(TrimMode::FromOffset(512)).finish(&mut t, 4, 30, object(0, 1000)),
        Err(FxfsError::Inconsistent)
    );

    // Deleting the object deletes all of its records at once.
    let mut t = transaction();
    assert_eq!(trimmed(OBJECT).finish(&mut t, 4, 30, object(7, 5000)), Ok(TrimResult::Done(None)));
    assert_eq!(t.mutations().len(), 2);
    match t.get_object_mutation(4, ObjectKey::object(9)) {
        Some(mutation) => {
            assert!(matches!(mutation.item.value, ObjectValue::Deleted));
            assert_eq!(mutation.op, OperationV32::Merge);
        }
        None => panic!("no change"),
    }
    match t.get_object_mutation(4, ObjectKey::project_usage(30, 7)) {
        Some(mutation) => assert!(matches!(
            mutation.item.value,
            ObjectValue::BytesAndNodes { bytes: -1024, nodes: -1 }
        )),
        None => panic!("no change"),
    }
    // Deleting an attribute.
    let mut t = transaction();
    assert_eq!(
        scan(ATTRIBUTE).finish(&mut t, 4, 30, None),
        Ok(TrimResult::Done(None))
    );
    assert_eq!(t.mutations().len(), 1);
    assert!(t
        .get_object_mutation(4, ObjectKey::attribute(9, 0, AttributeKey::Attribute))
        .is_some());
}

#[test]
fn trimming_goes_on() {
    let mut store = ObjectStore::new_root_parent(512, 3).new_child_store(4, [7; 16], None);
    store.set_directories(30, 31);
    let entry = |value| ObjectItem::new(ObjectKey::graveyard_entry(30, 9), value);
    let trim = entry(ObjectValue::Trim);
    let delete = entry(ObjectValue::Present);
    let after = |result, for_tombstone, entry: Option<&ObjectItem>| {
        let mut t = Transaction::new(LockKeys::Empty);
        let next = store.trim_or_tombstone(&mut t, 9, 5, result, for_tombstone, entry);
        let removed = t.get_object_mutation(4, ObjectKey::graveyard_entry(30, 9)).is_some();
        assert_eq!(t.mutations().len(), removed as usize);
        (next, removed)
    };
    assert_eq!(after(TrimResult::Incomplete, true, None), (Some(5), false));
    assert_eq!(after(TrimResult::Done(Some(6)), true, None), (Some(6), false));
    assert_eq!(after(TrimResult::Done(None), true, None), (None, true));
    assert_eq!(after(TrimResult::Done(None), false, None), (None, false));
    assert_eq!(after(TrimResult::Done(None), false, Some(&trim)), (None, true));
    assert_eq!(after(TrimResult::Done(None), false, Some(&delete)), (None, false));
    assert_eq!(after(TrimResult::Incomplete, false, Some(&trim)), (Some(5), false));

    let mut t = Transaction::new(LockKeys::Empty);
    assert!(store.tombstone_attribute(&mut t, 9, 5, TrimResult::Incomplete));
    assert!(t.mutations().is_empty());
    assert!(!store.tombstone_attribute(&mut t, 9, 5, TrimResult::Done(Some(6))));
    assert!(t
        .get_object_mutation(4, ObjectKey::graveyard_attribute_entry(30, 9, 5))
        .is_some());
}

#[test]
fn what_is_trimmed_has_to_end_on_the_device() {
    let scan = scan(OBJECT);
    assert!(scan.fits_device(&extent(0, 0, 1024, 512)));
    assert!(scan.fits_device(&extent(0, 0, 1024, u64::MAX - 1024)));
    assert!(!scan.fits_device(&extent(0, 0, 1024, u64::MAX - 1023)));
    assert!(scan.fits_device(&extent(0, 0, 1 << 63, 0)));
    // Other attributes are not trimmed.
    assert!(scan.fits_device(&extent(1, 0, 1024, u64::MAX)));
    assert!(scan.fits_device(&size_record(9, 0, 5)));
}

#[test]
fn extents_that_begin_beyond_any_device_are_inconsistent() {
    let mut scan = scan(TrimMode::FromOffset(4096));
    let item = extent(0, 0, 8192, 0xffff_ffff_ffff_f800);
    assert!(scan.fits_device(&item));
    assert_eq!(scan.next(Some(&item)).err(), Some(FxfsError::Inconsistent));
    // One that is too long to be counted and not aligned either.
    let item = extent(0, 4096, (1 << 63) + 4097, 0);
    assert!(scan.fits_device(&item));
    assert_eq!(scan.next(Some(&item)).err(), Some(FxfsError::Inconsistent));
}
