use fxfs::attributes::{
    apply_attributes, no_change, should_update_access_time, MutableNodeAttributes, DAY_NANOS,
};
use fxfs::encrypted_mutations::{split_at_key_rolls, EncryptedMutationsV40};
use fxfs::errors::FxfsError;
use fxfs::journal::{JournalCheckpoint, JournaledTransaction, Version};
use fxfs::lock_keys::{LockKey, LockKeys};
use fxfs::object_record::{
    AttributeKey, ExtentMode, ExtentValue, FsverityMetadata, FxfsKey, ObjectAttributes, ObjectItem,
    ObjectKey, ObjectKind, ObjectValue, PosixAttributes, Timestamp, FSCRYPT_KEY_ID,
    VOLUME_DATA_KEY_ID,
};
use fxfs::object_store::{
    new_object_key_id, HandleOptions, LockState, ObjectStore, OpCounts, StoreError, TreeChange,
};
use fxfs::store_info::{join_object_id, LastObjectId, NextObjectId, StoreInfoV40};
use fxfs::store_journal::{count_mutations, encrypted_records, ApplyContext, WritePlan};
use fxfs::store_lock::unlock_keys;
use fxfs::store_open::{
    get_file_size, get_keys, open_object, read_encrypted_symlink, read_symlink, total_layer_size,
    SymlinkTarget,
};
use fxfs::transaction::{MutationV47, Transaction};
use std::collections::VecDeque;

fn attributes() -> ObjectAttributes {
    let zero = Timestamp::from_nanos(0);
    ObjectAttributes {
        creation_time: zero,
        modification_time: zero,
        project_id: 0,
        posix_attributes: None,
        allocated_size: 0,
        access_time: zero,
        change_time: zero,
    }
}

fn file(refs: u64) -> ObjectValue {
    ObjectValue::Object { kind: ObjectKind::File { refs }, attributes: attributes() }
}

fn key(id: u128) -> FxfsKey {
    FxfsKey { wrapping_key_id: id, key: [id as u8; 48] }
}

fn checkpoint(file_offset: u64) -> JournalCheckpoint {
    JournalCheckpoint { file_offset, checksum: 0, version: Version { major: 47, minor: 0 } }
}

fn root_store() -> ObjectStore {
    let root_parent = ObjectStore::new_root_parent(512, 3);
    root_parent.new_child_store(4, [7; 16], None)
}

#[test]
fn stores_and_their_children() {
    let root_parent = ObjectStore::new_root_parent(512, 3);
    assert!(!root_parent.is_root());
    let root = root_parent.new_child_store(4, [7; 16], None);
    assert!(root.is_root());
    assert!(!root.is_encrypted());
    assert_eq!(root.store_object_id(), 4);
    let child = root.new_child_store(5, [8; 16], Some((key(1), key(2))));
    assert!(!child.is_root());
    assert!(child.is_encrypted());
    assert!(child.is_unlocked());
    assert_eq!(child.lock_state.as_str(), "Unlocked");
    assert_eq!(child.block_size(), 512);
    let info = child.store_info.unwrap();
    assert_eq!(info.guid, [8; 16]);
    // An encrypted store is locked when it is opened.
    let child = root.open(5, info);
    assert!(child.is_locked());
    assert!(child.store_info.is_none());
    let plain = root.open(6, StoreInfoV40 { last_object_id: 77, ..StoreInfoV40::default() });
    assert_eq!(plain.lock_state, LockState::Unencrypted);
    assert_eq!(plain.last_object_id.id, 77);
    assert_eq!(plain.object_count(), 0);
    assert_eq!(plain.internal_directory_id(), None);
    let options = HandleOptions::default();
    assert!(!options.skip_journal_checks && !options.skip_checksums);
}

#[test]
fn tracing() {
    let mut store = root_store();
    assert!(store.set_trace(true));
    assert!(!store.set_trace(true));
    assert!(store.set_trace(false));
}

#[test]
fn objects_of_a_store() {
    let info = StoreInfoV40 {
        layers: vec![10, 11],
        root_directory_object_id: 20,
        internal_directory_object_id: 22,
        ..StoreInfoV40::with_guid([1; 16])
    };
    assert_eq!(info.parent_objects(), vec![10, 11]);
    assert_eq!(info.root_objects(), vec![20, 22]);
    let info = StoreInfoV40 { encrypted_mutations_object_id: 12, ..info };
    assert_eq!(info.parent_objects(), vec![10, 11, 12]);
    assert_ne!(StoreInfoV40::new_with_guid().guid, StoreInfoV40::new_with_guid().guid);
    assert_eq!(total_layer_size(&info, &vec![100, 10], 7), 110);
    let info = StoreInfoV40 { mutations_key: Some(key(1)), ..info };
    assert_eq!(total_layer_size(&info, &vec![100, 10], 7), 131);
}

#[test]
fn locking_and_unlocking() {
    let root = root_store();
    let mut store = root.new_child_store(5, [8; 16], Some((key(1), key(2))));
    assert_eq!(store.check_unlock(), Err(FxfsError::AlreadyBound));
    store.begin_lock();
    assert!(store.is_locked());
    store.finish_lock(true);
    assert_eq!(store.lock_state, LockState::Locked);
    assert!(store.store_info.is_none());
    assert_eq!(store.check_unlock(), Ok(()));

    store.begin_unlock(StoreInfoV40::default());
    assert_eq!(store.lock_state, LockState::Unlocking);
    store.abort_unlock();
    assert!(store.store_info.is_none());

    store.begin_unlock(StoreInfoV40::default());
    assert!(!store.finish_unlock(true, true));
    assert_eq!(store.lock_state, LockState::UnlockedReadOnly);
    assert_eq!(store.check_unlock(), Err(FxfsError::AlreadyBound));
    store.lock_read_only();
    assert_eq!(store.check_unlock(), Ok(()));

    store.begin_unlock(StoreInfoV40::default());
    assert!(store.finish_unlock(false, false));
    // A store whose journal could not be synced is lost.
    store.begin_lock();
    store.finish_lock(false);
    assert_eq!(store.check_unlock(), Err(FxfsError::Internal));
    assert_eq!(root.check_unlock(), Err(FxfsError::InvalidArgs));
}

#[test]
fn keys_of_a_locked_store() {
    let info = StoreInfoV40 {
        mutations_key: Some(key(1)),
        object_id_key: Some(key(2)),
        mutations_cipher_offset: u32::MAX as u64,
        ..StoreInfoV40::default()
    };
    let keys = unlock_keys(&info).unwrap();
    assert_eq!(keys.mutations_key, key(1));
    assert_eq!(keys.object_id_key, key(2));
    let info = StoreInfoV40 { mutations_cipher_offset: u32::MAX as u64 + 1, ..info };
    assert!(matches!(unlock_keys(&info), Err(FxfsError::Inconsistent)));
    let info = StoreInfoV40 { mutations_cipher_offset: 0, object_id_key: None, ..info };
    assert!(matches!(unlock_keys(&info), Err(FxfsError::Inconsistent)));
}

#[test]
fn object_ids() {
    let mut plain = LastObjectId::default();
    assert_eq!(plain.get_next_object_id(), NextObjectId::Plain(1));
    assert_eq!(plain.maybe_get_next_object_id(), Some(NextObjectId::Plain(2)));
    assert_eq!(plain.maybe_bump_last_object_id(1), Ok(()));
    assert_eq!(plain.id, 2);
    assert_eq!(plain.maybe_bump_last_object_id(100), Ok(()));
    assert_eq!(plain.id, 100);
    assert_eq!(plain.maybe_bump_last_object_id(u32::MAX as u64), Err(()));

    let mut last = LastObjectId::new_encrypted();
    assert_eq!(last.get_next_object_id(), NextObjectId::Encrypt { hi: 1 << 32, lo: 1 });
    assert_eq!(join_object_id(1 << 32, 0x1234), 0x1_0000_1234);
    assert_eq!(last.maybe_bump_last_object_id(u64::MAX), Err(()));
}

#[test]
fn object_id_ciphers_are_rolled() {
    let mut last = LastObjectId { id: 0x1_ffff_fffe, has_cipher: true };
    assert!(!last.should_create_cipher());
    assert_eq!(
        last.maybe_get_next_object_id(),
        Some(NextObjectId::Encrypt { hi: 1 << 32, lo: u32::MAX })
    );
    assert!(last.should_create_cipher());
    assert_eq!(last.maybe_get_next_object_id(), None);
    assert_eq!(last.retry_next_object_id(), Ok(None));
    assert!(last.can_roll());
    assert_eq!(last.roll_cipher(), NextObjectId::Encrypt { hi: 2 << 32, lo: 0 });
    assert_eq!(last.id, 2 << 32);
    // Another task had rolled the cipher.
    assert_eq!(
        last.retry_next_object_id(),
        Ok(Some(NextObjectId::Encrypt { hi: 2 << 32, lo: 1 }))
    );
    // IDs of an older cipher don't matter.
    last.update_last_object_id(0x1_0000_0005, Some(u32::MAX));
    assert_eq!(last.id, 0x2_0000_0001);
    last.update_last_object_id(0x2_0000_0005, Some(9));
    assert_eq!(last.id, 0x2_0000_0009);

    let mut last = LastObjectId { id: u64::MAX, has_cipher: true };
    assert!(!last.can_roll());
    assert_eq!(last.retry_next_object_id(), Err(FxfsError::Inconsistent));

    let mut store = root_store().new_child_store(5, [8; 16], Some((key(1), key(2))));
    store.set_object_id_key(key(3));
    assert_eq!(store.store_info.unwrap().object_id_key, Some(key(3)));
}

#[test]
fn encrypted_mutations_are_collected_from_the_journal() {
    let transactions = vec![
        JournaledTransaction {
            checkpoint: checkpoint(100),
            non_root_mutations: vec![
                (5, MutationV47::EncryptedObjectStore(vec![1, 2])),
                (6, MutationV47::EncryptedObjectStore(vec![9])),
                (5, MutationV47::update_mutations_key(key(1))),
                (5, MutationV47::EncryptedObjectStore(vec![3])),
                (5, MutationV47::BeginFlush),
            ],
        },
        JournaledTransaction {
            checkpoint: checkpoint(200),
            non_root_mutations: vec![(5, MutationV47::EncryptedObjectStore(vec![4]))],
        },
    ];
    let mut mutations = EncryptedMutationsV40::from_replayed_mutations(5, &transactions);
    assert_eq!(mutations.transactions, vec![(checkpoint(100), 2), (checkpoint(200), 1)]);
    assert_eq!(mutations.data, vec![1, 2, 3, 4]);
    assert_eq!(mutations.mutations_key_roll, vec![(2, key(1))]);

    let other = EncryptedMutationsV40::from_replayed_mutations(5, &transactions);
    mutations.extend(&other);
    assert_eq!(mutations.data, vec![1, 2, 3, 4, 1, 2, 3, 4]);
    assert_eq!(mutations.mutations_key_roll, vec![(2, key(1)), (6, key(1))]);
    assert_eq!(
        split_at_key_rolls(8, &mutations.mutations_key_roll),
        Ok(vec![(0, 2), (2, 6), (6, 8)])
    );
    assert_eq!(split_at_key_rolls(0, &vec![]), Ok(vec![(0, 0)]));
    assert_eq!(split_at_key_rolls(8, &vec![(9, key(1))]), Err(FxfsError::Inconsistent));
    assert_eq!(
        split_at_key_rolls(8, &vec![(5, key(1)), (4, key(2))]),
        Err(FxfsError::Inconsistent)
    );
}

#[test]
fn mutations_are_written_and_replayed() {
    let root = root_store();
    let mut store = root.new_child_store(5, [8; 16], Some((key(1), key(2))));
    let birth = || MutationV47::insert_object(ObjectKey::object(9), file(1));
    match store.plan_write(&birth(), Some(0)) {
        WritePlan::Encrypted { new_key: Some(new_key) } => assert_eq!(new_key, key(1)),
        _ => panic!("the key is not written"),
    }
    assert!(matches!(
        store.plan_write(&birth(), Some(64)),
        WritePlan::Encrypted { new_key: None }
    ));
    assert!(matches!(store.plan_write(&MutationV47::BeginFlush, Some(0)), WritePlan::Plain));
    assert!(matches!(store.plan_write(&birth(), None), WritePlan::Plain));
    let records = encrypted_records(Some(key(1)), vec![1, 2, 3]);
    assert_eq!(records.len(), 2);
    assert!(matches!(&records[0], MutationV47::UpdateMutationsKey(k) if k.0 == key(1)));
    assert!(matches!(&records[1], MutationV47::EncryptedObjectStore(b) if *b == vec![1, 2, 3]));
    assert_eq!(encrypted_records(None, vec![1]).len(), 1);
    store.roll_mutations_key(key(4));
    assert_eq!(store.store_info.as_ref().unwrap().mutations_key, Some(key(4)));

    // What was written is replayed when the store is unlocked.
    store.begin_lock();
    store.finish_lock(true);
    store.begin_unlock(StoreInfoV40::default());
    let transactions = vec![(checkpoint(100), 1), (checkpoint(200), 2)];
    assert_eq!(count_mutations(&transactions), Some(3));
    assert_eq!(store.counters.mutations_applied, 0);
    let changes = store
        .replay_decrypted(
            key(5),
            &transactions,
            VecDeque::from(vec![
                (birth(), Some(9)),
                (MutationV47::insert_object(ObjectKey::object(8), file(1)), Some(8)),
                (
                    MutationV47::merge_object(ObjectKey::object(9), ObjectValue::Deleted),
                    None,
                ),
            ]),
        )
        .unwrap();
    let offsets: Vec<_> = changes
        .iter()
        .map(|change| match change {
            TreeChange::Insert(item) | TreeChange::MergeInto(item) => item.sequence,
            _ => panic!("unexpected change"),
        })
        .collect();
    assert_eq!(offsets, vec![100, 200, 200]);
    // The key was rolled.
    assert_eq!(store.store_info.as_ref().unwrap().mutations_key, Some(key(5)));
    assert_eq!(store.object_count(), 1);
    assert_eq!(store.counters.mutations_applied, 3);
    assert!(matches!(
        store.replay_decrypted(
            key(6),
            &vec![(checkpoint(300), 1)],
            VecDeque::from(vec![(MutationV47::CreateInternalDir(0), None)]),
        ),
        Err(StoreError::Fxfs(FxfsError::Inconsistent))
    ));
    // A mutation that cannot be applied is not counted.
    assert_eq!(store.counters.mutations_applied, 3);
    assert_eq!(count_mutations(&vec![]), Some(0));
    assert_eq!(count_mutations(&vec![(checkpoint(0), u64::MAX), (checkpoint(1), 1)]), None);
}

#[test]
fn counters_start_at_zero() {
    let root_parent = ObjectStore::new_root_parent(512, 3);
    let root = root_parent.new_child_store(4, [7; 16], None);
    let stores = vec![
        ObjectStore::new_empty(None, 9, 512),
        root.open(6, StoreInfoV40::default()),
        root_parent,
        root,
    ];
    for store in stores {
        assert_eq!(store.counters.mutations_applied, 0);
        assert_eq!(store.counters.mutations_dropped, 0);
        assert_eq!(store.counters.num_flushes, 0);
        assert_eq!(store.counters.last_flush_time, None);
        assert!(store.counters.persistent_layer_file_sizes.is_empty());
    }
}

#[test]
fn mutations_are_applied() {
    let mut store = root_store();
    let replay = ApplyContext { is_replay: true, checkpoint: checkpoint(100) };
    let live = ApplyContext { is_replay: false, checkpoint: checkpoint(200) };
    let change = store
        .apply_mutation(MutationV47::insert_object(ObjectKey::object(9), file(1)), &replay, None)
        .unwrap();
    assert!(matches!(change, TreeChange::Insert(item) if item.sequence == 100));
    assert_eq!(store.last_object_id.id, 9);
    assert_eq!(store.object_count(), 1);
    store
        .apply_mutation(MutationV47::insert_object(ObjectKey::object(99), file(1)), &live, None)
        .unwrap();
    assert_eq!(store.last_object_id.id, 9);
    assert_eq!(store.object_count(), 2);
    let change = store
        .apply_mutation(
            MutationV47::replace_or_insert_object(ObjectKey::object(9), file(2)),
            &live,
            None,
        )
        .unwrap();
    assert!(matches!(change, TreeChange::ReplaceOrInsert(item) if item.sequence == 200));
    assert_eq!(store.object_count(), 2);
    store
        .apply_mutation(
            MutationV47::merge_object(ObjectKey::object(9), ObjectValue::Deleted),
            &live,
            None,
        )
        .unwrap();
    assert_eq!(store.object_count(), 1);
    assert!(matches!(
        store.apply_mutation(MutationV47::BeginFlush, &live, None),
        Ok(TreeChange::Seal)
    ));
    assert!(matches!(
        store.apply_mutation(MutationV47::EndFlush, &live, None),
        Ok(TreeChange::Unchanged)
    ));
    store.apply_mutation(MutationV47::CreateInternalDir(55), &live, None).unwrap();
    assert_eq!(store.internal_directory_id(), Some(55));
    assert!(matches!(
        store.apply_mutation(MutationV47::EncryptedObjectStore(vec![]), &replay, None),
        Err(StoreError::Fxfs(FxfsError::Inconsistent))
    ));
    assert!(matches!(
        store.apply_mutation(MutationV47::DeleteVolume, &live, None),
        Err(StoreError::UnexpectedMutation)
    ));
    store.count_applied();
    store.drop_mutation();
    assert_eq!(store.counters.mutations_applied, 1);
    assert_eq!(store.counters.mutations_dropped, 1);

    // A locked store takes only what frames a flush and, during replay, encrypted mutations.
    let mut store = root_store().open(
        5,
        StoreInfoV40 { mutations_key: Some(key(1)), ..StoreInfoV40::default() },
    );
    let birth = || MutationV47::insert_object(ObjectKey::object(9), file(1));
    assert!(matches!(
        store.apply_mutation(birth(), &replay, None),
        Err(StoreError::Fxfs(FxfsError::Inconsistent))
    ));
    let encrypted = || MutationV47::EncryptedObjectStore(vec![1]);
    assert!(matches!(
        store.apply_mutation(encrypted(), &replay, None),
        Ok(TreeChange::Unchanged)
    ));
    assert!(store.apply_mutation(encrypted(), &live, None).is_err());
}

fn found(value: ObjectValue) -> Option<ObjectItem> {
    Some(ObjectItem::new(ObjectKey::object(9), value))
}

#[test]
fn references_are_counted() {
    let mut store = root_store();
    store.set_directories(30, 31);
    let locks = || LockKeys::Inline(LockKey::object(4, 9));
    let mut t = Transaction::new(locks());
    assert!(matches!(store.adjust_refs(&mut t, 9, 1, found(file(1))), Ok(false)));
    match store.txn_get_object_mutation(&t, 9, None) {
        Ok(mutation) => assert!(matches!(
            mutation.item.value,
            ObjectValue::Object { kind: ObjectKind::File { refs: 2 }, .. }
        )),
        Err(error) => panic!("{error:?}"),
    }
    // The last reference puts the object in the graveyard.  The object is not changed, and need not be
    // locked.
    let mut t = Transaction::new(LockKeys::Empty);
    let mutation = store.txn_get_object_mutation(&t, 9, found(file(1))).unwrap();
    assert!(!ObjectStore::refs_change(&mutation, -1));
    assert!(ObjectStore::refs_change(&mutation, 1));
    assert!(!ObjectStore::refs_change(&mutation, -2));
    assert!(matches!(store.adjust_refs(&mut t, 9, -1, found(file(1))), Ok(true)));
    assert_eq!(t.mutations().len(), 1);
    assert!(t.get_object_mutation(4, ObjectKey::graveyard_entry(30, 9)).is_some());
    store.remove_from_graveyard(&mut t, 9);
    assert_eq!(t.mutations().len(), 1);
    let mut t = Transaction::new(locks());
    assert!(matches!(store.adjust_refs(&mut t, 9, -2, found(file(2))), Ok(true)));
    assert_eq!(t.mutations().len(), 2);
    assert!(matches!(
        store.adjust_refs(&mut t, 9, -2, found(file(1))),
        Err(StoreError::RefsOverflow)
    ));
    let mut t = Transaction::new(locks());
    assert!(matches!(
        store.adjust_refs(&mut t, 9, -1, found(ObjectValue::Trim)),
        Err(StoreError::Fxfs(FxfsError::NotFile))
    ));
    assert!(matches!(
        store.adjust_refs(&mut t, 9, -1, None),
        Err(StoreError::Fxfs(FxfsError::Inconsistent))
    ));
    assert!(t.mutations().is_empty());
    // What the transaction changes already is taken into account.
    assert!(matches!(store.adjust_refs(&mut t, 9, 1, found(file(1))), Ok(false)));
    assert!(matches!(store.adjust_refs(&mut t, 9, 1, found(file(1))), Ok(false)));
    match store.txn_get_object_mutation(&t, 9, None) {
        Ok(mutation) => assert!(matches!(
            mutation.item.value,
            ObjectValue::Object { kind: ObjectKind::File { refs: 3 }, .. }
        )),
        Err(error) => panic!("{error:?}"),
    }
    let mut t = Transaction::new(locks());
    store.remove_attribute_from_graveyard(&mut t, 9, 3);
    assert!(t
        .get_object_mutation(4, ObjectKey::graveyard_attribute_entry(30, 9, 3))
        .is_some());
    assert!(matches!(
        store.txn_get_object_mutation(&t, 9, None),
        Err(FxfsError::Inconsistent)
    ));
}

#[test]
fn attributes_change() {
    let nothing = MutableNodeAttributes::default();
    assert!(no_change(&None, &None));
    assert!(no_change(&Some(nothing), &None));
    assert!(!no_change(&None, &Some(Timestamp::from_nanos(1))));

    let mut attributes = attributes();
    let change = MutableNodeAttributes { mode: Some(0o600), access_time: Some(5), ..nothing };
    assert!(!no_change(&Some(change), &None));
    apply_attributes(&mut attributes, &Some(change), &Some(Timestamp::from_nanos(9)));
    assert_eq!(attributes.access_time.as_nanos(), 5);
    assert_eq!(attributes.change_time.as_nanos(), 9);
    assert_eq!(attributes.creation_time.as_nanos(), 0);
    assert_eq!(
        attributes.posix_attributes,
        Some(PosixAttributes { mode: 0o600, uid: 0, gid: 0, rdev: 0 })
    );
    let change = MutableNodeAttributes { uid: Some(7), ..nothing };
    apply_attributes(&mut attributes, &Some(change), &None);
    assert_eq!(
        attributes.posix_attributes,
        Some(PosixAttributes { mode: 0o600, uid: 7, gid: 0, rdev: 0 })
    );
    assert_eq!(attributes.change_time.as_nanos(), 9);
}

fn changed_attributes(store: &ObjectStore, transaction: &Transaction) -> ObjectAttributes {
    match store.txn_get_object_mutation(transaction, 9, None) {
        Ok(mutation) => match mutation.item.value {
            ObjectValue::Object { attributes, .. } => attributes,
            _ => panic!("unexpected value"),
        },
        Err(error) => panic!("{error:?}"),
    }
}

#[test]
fn attributes_change_in_a_transaction() {
    let store = root_store();
    let mut t = Transaction::new(LockKeys::Inline(LockKey::object(4, 9)));
    let change = Some(MutableNodeAttributes { gid: Some(3), ..MutableNodeAttributes::default() });
    // Nothing is looked up if there is nothing to change.
    assert_eq!(store.update_attributes(&mut t, 9, &None, &None, None), Ok(()));
    assert!(t.mutations().is_empty());
    assert_eq!(
        store.update_attributes(&mut t, 9, &change, &None, None),
        Err(FxfsError::Inconsistent)
    );
    assert_eq!(
        store.update_attributes(&mut t, 9, &change, &None, found(ObjectValue::Trim)),
        Err(FxfsError::Inconsistent)
    );
    assert!(t.mutations().is_empty());
    assert_eq!(store.update_attributes(&mut t, 9, &change, &None, found(file(1))), Ok(()));
    let time = Some(Timestamp::from_nanos(8));
    assert_eq!(store.update_attributes(&mut t, 9, &None, &time, found(file(1))), Ok(()));
    assert_eq!(t.mutations().len(), 1);
    let attributes = changed_attributes(&store, &t);
    assert_eq!(attributes.change_time.as_nanos(), 8);
    assert_eq!(
        attributes.posix_attributes,
        Some(PosixAttributes { mode: 0, uid: 0, gid: 3, rdev: 0 })
    );
}

#[test]
fn access_times_are_updated() {
    let store = root_store();
    let time = Timestamp::from_nanos;
    let now = time(10 * DAY_NANOS);
    let mut t = Transaction::new(LockKeys::Inline(LockKey::object(4, 9)));
    let mut access_time = time(9 * DAY_NANOS + 1);
    let mut update = |t: &mut Transaction, access_time: &mut Timestamp, modified, found| {
        store.update_access_time(t, 9, access_time, time(modified), time(0), now, found)
    };
    assert_eq!(update(&mut t, &mut access_time, 5, found(file(1))), Ok(false));
    assert!(t.mutations().is_empty());
    assert_eq!(access_time.as_nanos(), 9 * DAY_NANOS + 1);
    assert_eq!(
        update(&mut t, &mut access_time, 9 * DAY_NANOS + 1, None),
        Err(FxfsError::Inconsistent)
    );
    assert_eq!(access_time.as_nanos(), 9 * DAY_NANOS + 1);
    assert_eq!(update(&mut t, &mut access_time, 9 * DAY_NANOS + 1, found(file(1))), Ok(true));
    assert_eq!(access_time, now);
    assert_eq!(changed_attributes(&store, &t).access_time, now);
}

#[test]
fn files_are_created() {
    let store = root_store();
    assert_eq!(store.last_object_id(), 0);
    assert!(store.store_info().is_some());
    let now = Timestamp::from_nanos(77);
    let mut t = Transaction::new(LockKeys::Empty);
    let handle = store.create_object(&mut t, 9, now, None, None);
    assert_eq!((handle.object_id, handle.size, handle.permanent_keys), (9, 0, false));
    assert!(handle.overwrite_ranges.is_empty() && !handle.is_verified_file());
    assert_eq!(t.mutations().len(), 2);
    assert_eq!(changed_attributes(&store, &t).creation_time, now);
    assert!(t
        .get_object_mutation(4, ObjectKey::attribute(9, 0, AttributeKey::Attribute))
        .is_some());
    let keys_of = |t: &Transaction| match t.get_object_mutation(4, ObjectKey::keys(9)) {
        Some(mutation) => match &mutation.item.value {
            ObjectValue::Keys(keys) => keys.iter().map(|(id, key)| (*id, *key)).collect(),
            _ => panic!("unexpected value"),
        },
        None => vec![],
    };
    assert_eq!(keys_of(&t), vec![]);

    // Layer files of an encrypted store are encrypted even in an unencrypted store.
    let mut t = Transaction::new(LockKeys::Empty);
    assert!(store.create_object_with_key(&mut t, 9, now, key(5)).permanent_keys);
    assert_eq!(keys_of(&t), vec![(VOLUME_DATA_KEY_ID, key(5))]);

    let mut encrypted = root_store();
    encrypted.lock_state = LockState::Unlocked;
    let mut t = Transaction::new(LockKeys::Empty);
    assert!(!encrypted.create_object(&mut t, 9, now, None, Some(key(6))).permanent_keys);
    assert_eq!(keys_of(&t), vec![(VOLUME_DATA_KEY_ID, key(6))]);
    let mut t = Transaction::new(LockKeys::Empty);
    encrypted.create_object(&mut t, 9, now, Some(2), Some(key(2)));
    assert_eq!(keys_of(&t), vec![(FSCRYPT_KEY_ID, key(2))]);
}

#[test]
fn internal_directory() {
    let mut store = root_store();
    assert_eq!(store.internal_directory_id(), None);
    assert_eq!(
        store.info_lock_keys().iter().copied().collect::<Vec<_>>(),
        vec![LockKey::object(3, 4)]
    );
    let mut t = Transaction::new(store.info_lock_keys());
    store.add_internal_directory(&mut t, 77);
    let context = ApplyContext { is_replay: false, checkpoint: checkpoint(0) };
    for txn_mutation in t.take_mutations() {
        assert_eq!(txn_mutation.object_id, 4);
        assert!(store.apply_mutation(txn_mutation.mutation, &context, None).is_ok());
    }
    assert_eq!(store.internal_directory_id(), Some(77));
}

#[test]
fn access_times_are_relative() {
    let t = Timestamp::from_nanos;
    let now = 10 * DAY_NANOS;
    // The file was modified, or its attributes changed, since the last access.
    assert!(should_update_access_time(t(now - 5), t(now - 5), t(0), t(now)));
    assert!(should_update_access_time(t(now - 5), t(0), t(now - 1), t(now)));
    assert!(!should_update_access_time(t(now - 5), t(now - 6), t(now - 6), t(now)));
    // The last access is more than a day ago.
    assert!(!should_update_access_time(t(now - DAY_NANOS), t(0), t(0), t(now)));
    assert!(should_update_access_time(t(now - DAY_NANOS - 1), t(0), t(0), t(now)));
}

fn size_record(size: u64, has_overwrite_extents: bool) -> Option<ObjectItem> {
    Some(ObjectItem::new(
        ObjectKey::attribute(9, 0, AttributeKey::Attribute),
        ObjectValue::Attribute { size, has_overwrite_extents },
    ))
}

fn extent(object_id: u64, start: u64, mode: ExtentMode) -> ObjectItem {
    ObjectItem::new(
        ObjectKey::extent(object_id, 0, start, start + 512),
        ObjectValue::Extent(ExtentValue::Mapped { device_offset: 0, mode, key_id: 0 }),
    )
}

#[test]
fn objects_are_opened() {
    const MAX: u64 = 1 << 40;
    let extents = vec![
        extent(9, 0, ExtentMode::Raw),
        extent(9, 512, ExtentMode::OverwritePartial),
        extent(9, 1024, ExtentMode::Cow),
        extent(9, 1536, ExtentMode::Overwrite),
        extent(10, 0, ExtentMode::Overwrite),
    ];
    let object = open_object(9, size_record(2048, true), &extents, true, None, MAX).unwrap();
    assert_eq!(object.overwrite_ranges, vec![(512, 1024), (1536, 2048)]);
    assert_eq!(object.size, 2048);
    assert!(object.permanent_keys);
    assert!(!object.is_verified_file());
    let object = open_object(9, size_record(2048, false), &extents, false, None, MAX).unwrap();
    assert!(object.overwrite_ranges.is_empty());
    let malformed = vec![ObjectItem::new(ObjectKey::extent(9, 0, 0, 512), ObjectValue::Trim)];
    assert!(matches!(
        open_object(9, size_record(1, true), &malformed, false, None, MAX),
        Err(FxfsError::Inconsistent)
    ));
    assert!(matches!(
        open_object(9, size_record(MAX + 1, false), &extents, false, None, MAX),
        Err(FxfsError::Inconsistent)
    ));
    assert!(matches!(
        open_object(9, None, &extents, false, None, MAX),
        Err(FxfsError::NotFound)
    ));
    assert!(matches!(
        open_object(9, Some(extent(9, 0, ExtentMode::Raw)), &extents, false, None, MAX),
        Err(FxfsError::Inconsistent)
    ));
}

fn verified_record() -> Option<ObjectItem> {
    Some(ObjectItem::new(
        ObjectKey::attribute(9, 0, AttributeKey::Attribute),
        ObjectValue::VerifiedAttribute {
            size: 10,
            fsverity_metadata: FsverityMetadata { root_digest: vec![1; 32], salt: vec![2; 8] },
        },
    ))
}

#[test]
fn test_verified_file_with_verified_attribute() {
    let object = open_object(9, verified_record(), &vec![], false, Some(vec![5]), 100).unwrap();
    assert!(object.is_verified_file());
    assert_eq!(object.fsverity.unwrap().1, vec![5]);
}

#[test]
fn test_verified_file_without_verified_attribute() {
    assert!(matches!(
        open_object(9, verified_record(), &vec![], false, None, 100),
        Err(FxfsError::NotFound)
    ));
    let object = open_object(9, size_record(10, false), &vec![], false, None, 100).unwrap();
    assert!(!object.is_verified_file());
}

#[test]
fn records_about_objects() {
    assert_eq!(get_file_size(size_record(5, false).as_ref()), Ok(5));
    assert_eq!(get_file_size(None), Err(FxfsError::NotFound));
    assert_eq!(get_file_size(verified_record().as_ref()), Err(FxfsError::NotFile));
    let keys = Some(ObjectItem::new(
        ObjectKey::keys(9),
        ObjectValue::Keys(vec![(VOLUME_DATA_KEY_ID, key(1))]),
    ));
    assert_eq!(get_keys(keys), Ok(vec![(VOLUME_DATA_KEY_ID, key(1))]));
    assert_eq!(get_keys(None), Err(FxfsError::Inconsistent));
    assert_eq!(get_keys(size_record(5, false)), Err(FxfsError::Inconsistent));
    assert_eq!(new_object_key_id(None), VOLUME_DATA_KEY_ID);
    assert_eq!(new_object_key_id(Some(5)), FSCRYPT_KEY_ID);
}

#[test]
fn symbolic_links() {
    let link = |kind| {
        Some(ObjectItem::new(
            ObjectKey::object(9),
            ObjectValue::Object { kind, attributes: attributes() },
        ))
    };
    let plain = link(ObjectKind::Symlink { refs: 1, link: b"target".to_vec() });
    assert!(matches!(read_symlink(plain), Ok(SymlinkTarget::Plain(l)) if l == b"target".to_vec()));
    let encrypted = link(ObjectKind::EncryptedSymlink { refs: 1, link: vec![1, 2] });
    assert!(matches!(read_symlink(encrypted), Ok(SymlinkTarget::Encrypted(l)) if l == vec![1, 2]));
    assert!(matches!(read_symlink(None), Err(FxfsError::NotFound)));
    assert!(matches!(
        read_symlink(link(ObjectKind::File { refs: 1 })),
        Err(FxfsError::Inconsistent)
    ));

    let digest: Vec<u8> = (0..32u8).map(|i| i.wrapping_mul(37).wrapping_add(251)).collect();
    let digest: [u8; 32] = digest.try_into().unwrap();
    assert_eq!(read_encrypted_symlink(Some(b"plain".to_vec()), &digest), b"plain".to_vec());
    assert_eq!(
        read_encrypted_symlink(None, &[0; 32]),
        b"AAAAAAAAAAAAAAAAAAAAAAAAAAAAAAAAAAAAAAAAAAA".to_vec()
    );
    assert_eq!(
        read_encrypted_symlink(None, &[0xff; 32]),
        b"__________________________________________8".to_vec()
    );
    // Six bits a character.
    let alphabet = b"ABCDEFGHIJKLMNOPQRSTUVWXYZabcdefghijklmnopqrstuvwxyz0123456789-_";
    let encoded = read_encrypted_symlink(None, &digest);
    assert_eq!(encoded.len(), 43);
    for (i, c) in encoded.iter().enumerate() {
        let mut bits = 0;
        for bit in 6 * i..6 * i + 6 {
            let byte = digest.get(bit / 8).copied().unwrap_or(0);
            bits = bits << 1 | (byte >> (7 - bit % 8) & 1) as usize;
        }
        assert_eq!(*c, alphabet[bits]);
    }
}

#[test]
fn what_is_published_about_a_store() {
    let mut store = root_store();
    store.count_applied();
    store.counters.persistent_layer_file_sizes = vec![10, 20];
    store.counters.last_flush_time = Some(77);
    store.store_info.as_mut().unwrap().guid =
        [0, 0x1b, 0xff, 0xa0, 5, 6, 7, 8, 9, 10, 11, 12, 13, 14, 15, 16];
    let ops = OpCounts {
        device_read_ops: 1,
        device_write_ops: 2,
        logical_read_ops: 3,
        logical_write_ops: 4,
    };
    let data = store.record_data(ops);
    assert_eq!(data.guid.unwrap(), "001bffa0-0506-0708-090a-0b0c0d0e0f10");
    assert_eq!(data.store_object_id, store.store_object_id());
    assert_eq!((data.mutations_applied, data.mutations_dropped, data.num_flushes), (1, 0, 0));
    assert_eq!(data.last_flush_time_ms, Some(77));
    assert_eq!(data.persistent_layer_file_sizes, vec![10, 20]);
    assert_eq!(data.ops, ops);
    store.store_info = None;
    assert!(store.record_data(ops).guid.is_none());
}
