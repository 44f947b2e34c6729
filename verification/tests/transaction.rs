use fxfs::lock_keys::{LockKey, LockKeys};
use fxfs::object_record::{
    AttributeKey, ExtentValue, ObjectAttributes, ObjectKey, ObjectKind, ObjectValue, Timestamp,
};
use fxfs::transaction::{
    BorrowedOrOwned, DeviceRangeV32, MetadataReservation, MutationV47, OperationV32, Transaction,
    TxnMutation,
};
use std::ops::Range;

fn file(refs: u64) -> ObjectValue {
    let zero = Timestamp::from_nanos(0);
    ObjectValue::Object {
        kind: ObjectKind::File { refs },
        attributes: ObjectAttributes {
            creation_time: zero,
            modification_time: zero,
            project_id: 0,
            posix_attributes: None,
            allocated_size: 0,
            access_time: zero,
            change_time: zero,
        },
    }
}

fn refs_of(mutation: &MutationV47) -> u64 {
    match mutation {
        MutationV47::ObjectStore(mutation) => match mutation.item.value {
            ObjectValue::Object { kind: ObjectKind::File { refs }, .. } => refs,
            _ => panic!("not a file"),
        },
        _ => panic!("not an object"),
    }
}

#[test]
fn transaction_test_simple() {
    let mut t = Transaction::new(LockKeys::Empty);
    t.add(1, MutationV47::BeginFlush);
    assert!(!t.is_empty());
}

#[test]
fn a_mutation_replaces_the_one_that_it_matches() {
    let mut t = Transaction::new(LockKeys::Inline(LockKey::object(1, 10)));
    let key = || ObjectKey::object(10);
    assert!(t.add(1, MutationV47::replace_or_insert_object(key(), file(1))).is_none());
    let replaced = t.add(1, MutationV47::replace_or_insert_object(key(), file(2))).unwrap();
    assert_eq!(refs_of(&replaced), 1);
    assert_eq!(t.mutations().len(), 1);
    assert_eq!(refs_of(&t.mutations()[0].mutation), 2);
    // The same key in another store is something else.
    t.add(2, MutationV47::insert_object(key(), file(3)));
    assert_eq!(t.mutations().len(), 2);
    match t.get_object_mutation(1, key()) {
        Some(mutation) => assert!(matches!(mutation.op, OperationV32::ReplaceOrInsert)),
        None => panic!("not found"),
    }
    assert!(t.get_object_mutation(3, key()).is_none());
    t.remove(1, MutationV47::replace_or_insert_object(key(), file(9)));
    assert!(t.get_object_mutation(1, key()).is_none());
    assert_eq!(t.mutations().len(), 1);
}

#[test]
fn mutations_are_kept_in_order() {
    let mut t = Transaction::new(LockKeys::Empty);
    for id in [30, 10, 20] {
        t.add(1, MutationV47::insert_object(ObjectKey::object(id), file(1)));
    }
    let ids: Vec<_> = t
        .mutations()
        .iter()
        .map(|m| match &m.mutation {
            MutationV47::ObjectStore(mutation) => mutation.item.key.object_id,
            _ => panic!("not an object"),
        })
        .collect();
    assert_eq!(ids, vec![10, 20, 30]);
    assert_eq!(t.take_mutations().len(), 3);
    assert!(t.is_empty());
}

#[test]
fn changes_need_locks_unless_the_object_is_new() {
    let mutation =
        |mutation| TxnMutation { object_id: 1, mutation, associated_object: None };
    let change =
        || mutation(MutationV47::replace_or_insert_object(ObjectKey::object(10), file(1)));
    let keys = || {
        mutation(MutationV47::insert_object(ObjectKey::keys(10), ObjectValue::Keys(vec![])))
    };
    let limit = || {
        mutation(MutationV47::replace_or_insert_object(
            ObjectKey::project_limit(2, 5),
            ObjectValue::BytesAndNodes { bytes: 1, nodes: 1 },
        ))
    };
    let resize = || {
        mutation(MutationV47::replace_or_insert_object(
            ObjectKey::attribute(10, 0, AttributeKey::Attribute),
            ObjectValue::Attribute { size: 0, has_overwrite_extents: false },
        ))
    };
    let mut t = Transaction::new(LockKeys::Empty);
    assert_eq!(t.verify_locks(&change()), Some(LockKey::object(1, 10)));
    assert_eq!(t.verify_locks(&keys()), Some(LockKey::object(1, 10)));
    let project_lock = LockKey::ProjectId { store_object_id: 1, project_id: 5 };
    assert_eq!(t.verify_locks(&limit()), Some(project_lock));
    assert_eq!(t.verify_locks(&resize()), None);

    let mut t = Transaction::new(LockKeys::Vec(vec![LockKey::object(1, 10), project_lock]));
    assert_eq!(t.verify_locks(&change()), None);
    assert_eq!(t.verify_locks(&keys()), None);
    assert_eq!(t.verify_locks(&limit()), None);

    // An object that is created in the same transaction needs no lock.
    let mut t = Transaction::new(LockKeys::Empty);
    t.add(1, MutationV47::insert_object(ObjectKey::object(10), file(1)));
    assert_eq!(t.verify_locks(&change()), None);
    assert_eq!(t.verify_locks(&keys()), None);
    t.remove(1, MutationV47::insert_object(ObjectKey::object(10), file(1)));
    assert_eq!(t.verify_locks(&change()), Some(LockKey::object(1, 10)));
}

#[test]
fn extents_are_writes() {
    let mut t = Transaction::new(LockKeys::Empty);
    t.add(
        1,
        MutationV47::insert_object(
            ObjectKey::attribute(10, 0, AttributeKey::Attribute),
            ObjectValue::Attribute { size: 0, has_overwrite_extents: false },
        ),
    );
    assert!(!t.includes_write());
    t.add(
        1,
        MutationV47::merge_object(
            ObjectKey::extent(10, 0, 0, 512),
            ObjectValue::Extent(ExtentValue::Deleted),
        ),
    );
    assert!(t.includes_write());
}

#[test]
fn checksums_and_locks_can_be_taken() {
    let mut t = Transaction::new(LockKeys::Inline(LockKey::flush(3)));
    t.add_checksum(DeviceRangeV32 { start: 0, end: 512 }, vec![1, 2], true);
    assert_eq!(t.checksums().len(), 1);
    let checksums = t.take_checksums();
    assert_eq!(checksums[0].checksums, vec![1, 2]);
    assert!(t.checksums().is_empty());
    assert_eq!(t.lock_keys().len(), 1);
    assert_eq!(t.take_locks().len(), 1);
    assert_eq!(t.lock_keys().len(), 0);
}

#[test]
fn metadata_space_can_be_taken() {
    let mut t = Transaction::new(LockKeys::Empty);
    assert_eq!(t.take_metadata_reservation(), MetadataReservation::Unreserved);
    for reservation in [
        MetadataReservation::Borrowed,
        MetadataReservation::Reservation(4096),
        MetadataReservation::Hold(8192),
    ] {
        t.set_metadata_reservation(reservation);
        assert_eq!(t.take_metadata_reservation(), reservation);
        assert_eq!(t.take_metadata_reservation(), MetadataReservation::Unreserved);
    }
}

#[test]
fn device_ranges_are_ordered_by_start_and_then_by_end() {
    let range = |start, end| DeviceRangeV32 { start, end };
    assert!(range(0, 9) < range(1, 2));
    assert!(range(1, 2) < range(1, 3));
    assert!(!(range(1, 2) < range(1, 2)));
    assert_eq!(DeviceRangeV32::from(Range { start: 4u64, end: 8 }), range(4, 8));
}

#[test]
fn borrowed_or_owned_values() {
    let value = 5;
    assert_eq!(*BorrowedOrOwned::Borrowed(&value).get(), 5);
    assert_eq!(*BorrowedOrOwned::Owned(6).get(), 6);
}
