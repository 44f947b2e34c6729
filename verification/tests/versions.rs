use fxfs::object_record::{FxfsKey, ObjectItem, ObjectKey, ObjectValue};
use fxfs::store_info::StoreInfoV40;
use fxfs::super_block::SuperBlockRecordV47;
use fxfs::transaction::{
    AllocatorMutationV32, DeviceRangeV32, MutationV47, ObjectStoreMutationV47, OperationV32,
    UpdateMutationsKeyV40,
};
use fxfs::versions::{
    MutationV40, MutationV41, MutationV43, MutationV46, ObjectStoreMutationV40,
    ObjectStoreMutationV41, ObjectStoreMutationV43, ObjectStoreMutationV46, StoreInfoV32,
    StoreInfoV36, SuperBlockRecordV40, SuperBlockRecordV41, SuperBlockRecordV43,
    SuperBlockRecordV46, UpdateMutationsKeyV32,
};

// An item of an earlier version: nothing but the ID of an object that is deleted.
struct Deleted(u64);

impl From<Deleted> for ObjectItem {
    fn from(deleted: Deleted) -> ObjectItem {
        ObjectItem::new(ObjectKey::object(deleted.0), ObjectValue::Deleted)
    }
}

impl From<u32> for Deleted {
    fn from(id: u32) -> Deleted {
        Deleted(id as u64)
    }
}

// A key of an earlier version, with a short ID.
struct ShortKey(u64);

impl From<ShortKey> for FxfsKey {
    fn from(key: ShortKey) -> FxfsKey {
        FxfsKey { wrapping_key_id: key.0 as u128, key: [7; 48] }
    }
}

fn upgrade_record(record: SuperBlockRecordV40<u8>) -> SuperBlockRecordV47 {
    let record = SuperBlockRecordV41::<u16>::from(record);
    let record = SuperBlockRecordV43::<u32>::from(record);
    let record = SuperBlockRecordV46::<Deleted>::from(record);
    SuperBlockRecordV47::from(record)
}

fn upgrade_mutation(mutation: MutationV40<u8>) -> MutationV47 {
    let mutation = MutationV41::<u16>::from(mutation);
    let mutation = MutationV43::<u32>::from(mutation);
    let mutation = MutationV46::<Deleted>::from(mutation);
    MutationV47::from(mutation)
}

#[test]
fn super_block_records_are_upgraded() {
    let extent = DeviceRangeV32 { start: 512, end: 1024 };
    assert!(matches!(
        upgrade_record(SuperBlockRecordV40::Extent(extent)),
        SuperBlockRecordV47::Extent(e) if e == extent
    ));
    assert!(matches!(upgrade_record(SuperBlockRecordV40::End), SuperBlockRecordV47::End));
    match upgrade_record(SuperBlockRecordV40::ObjectItem(9)) {
        SuperBlockRecordV47::ObjectItem(item) => {
            assert_eq!(item.key.object_id, 9);
            assert!(matches!(item.value, ObjectValue::Deleted));
        }
        _ => panic!("not an item"),
    }
}

#[test]
fn mutations_of_objects_are_upgraded() {
    let mutation = ObjectStoreMutationV40 { item: 9u8, op: OperationV32::Merge };
    let mutation = ObjectStoreMutationV41::<u16>::from(mutation);
    let mutation = ObjectStoreMutationV43::<u32>::from(mutation);
    let mutation = ObjectStoreMutationV46::<Deleted>::from(mutation);
    let mutation = ObjectStoreMutationV47::from(mutation);
    assert_eq!(mutation.item.key.object_id, 9);
    assert!(matches!(mutation.op, OperationV32::Merge));
}

#[test]
fn mutations_are_upgraded() {
    let object = ObjectStoreMutationV40 { item: 9u8, op: OperationV32::Insert };
    match upgrade_mutation(MutationV40::ObjectStore(object)) {
        MutationV47::ObjectStore(mutation) => {
            assert_eq!(mutation.item.key.object_id, 9);
            assert!(matches!(mutation.op, OperationV32::Insert));
        }
        _ => panic!("not a mutation of an object"),
    }
    assert!(matches!(
        upgrade_mutation(MutationV40::EncryptedObjectStore(vec![1, 2])),
        MutationV47::EncryptedObjectStore(data) if data == vec![1, 2]
    ));
    let limit = AllocatorMutationV32::SetLimit { owner_object_id: 3, bytes: 4 };
    assert!(matches!(
        upgrade_mutation(MutationV40::Allocator(limit)),
        MutationV47::Allocator(mutation) if mutation == limit
    ));
    assert!(matches!(upgrade_mutation(MutationV40::BeginFlush), MutationV47::BeginFlush));
    assert!(matches!(upgrade_mutation(MutationV40::EndFlush), MutationV47::EndFlush));
    assert!(matches!(upgrade_mutation(MutationV40::DeleteVolume), MutationV47::DeleteVolume));
    assert!(matches!(
        upgrade_mutation(MutationV40::UpdateBorrowed(5)),
        MutationV47::UpdateBorrowed(5)
    ));
    let key = UpdateMutationsKeyV40(FxfsKey { wrapping_key_id: 1, key: [2; 48] });
    assert!(matches!(
        upgrade_mutation(MutationV40::UpdateMutationsKey(key)),
        MutationV47::UpdateMutationsKey(k) if k.0 == key.0
    ));
    assert!(matches!(
        upgrade_mutation(MutationV40::CreateInternalDir(6)),
        MutationV47::CreateInternalDir(6)
    ));
}

#[test]
fn store_infos_are_upgraded() {
    let info = StoreInfoV32 {
        guid: [1; 16],
        last_object_id: 2,
        layers: vec![3, 4],
        root_directory_object_id: 5,
        graveyard_directory_object_id: 6,
        object_count: 7,
        mutations_key: Some(ShortKey(8)),
        mutations_cipher_offset: 9,
        encrypted_mutations_object_id: 10,
        object_id_key: None,
    };
    let info = StoreInfoV36::from(info);
    assert_eq!(info.internal_directory_object_id, 0);
    let info = StoreInfoV40::from(StoreInfoV36 { internal_directory_object_id: 11, ..info });
    assert_eq!(info.guid, [1; 16]);
    assert_eq!(info.last_object_id, 2);
    assert_eq!(info.layers, vec![3, 4]);
    assert_eq!(info.root_directory_object_id, 5);
    assert_eq!(info.graveyard_directory_object_id, 6);
    assert_eq!(info.object_count, 7);
    assert_eq!(info.mutations_key.unwrap().wrapping_key_id, 8);
    assert_eq!(info.mutations_cipher_offset, 9);
    assert_eq!(info.encrypted_mutations_object_id, 10);
    assert!(info.object_id_key.is_none());
    assert_eq!(info.internal_directory_object_id, 11);
    let key = UpdateMutationsKeyV40::from(UpdateMutationsKeyV32(ShortKey(12)));
    assert_eq!(key.0, FxfsKey { wrapping_key_id: 12, key: [7; 48] });
}
