//! Records as earlier versions of the format have them, and their conversion to later versions.
//!
//! The records differ in the items and keys that they hold, which are parameters of the types here; a
//! record can be converted wherever what it holds can be.
use crate::object_record::{FxfsKey, ObjectItem, INVALID_OBJECT_ID};
use crate::store_info::StoreInfoV40;
use crate::super_block::SuperBlockRecordV47;
use crate::transaction::{
    AllocatorMutationV32, DeviceRange, MutationV47, ObjectStoreMutationV47, OperationV32,
    UpdateMutationsKeyV40,
};
use vstd::prelude::*;
use vstd::std_specs::convert::FromSpec;

verus! {

/// A record of a super-block in version 46 of the format.
#[derive(Debug)]
pub enum SuperBlockRecordV46<I> {
    Extent(DeviceRange),
    ObjectItem(I),
    End,
}

impl<I> From<SuperBlockRecordV46<I>> for SuperBlockRecordV47 where ObjectItem: From<I> {
    fn from(value: SuperBlockRecordV46<I>) -> (converted: Self) {
        match value {
            SuperBlockRecordV46::Extent(extent) => SuperBlockRecordV47::Extent(extent),
            SuperBlockRecordV46::ObjectItem(item) => SuperBlockRecordV47::ObjectItem(ObjectItem::from(item)),
            SuperBlockRecordV46::End => SuperBlockRecordV47::End,
        }
    }
}

impl<I> vstd::std_specs::convert::FromSpecImpl<SuperBlockRecordV46<I>> for SuperBlockRecordV47 where ObjectItem: From<I> {
    open spec fn obeys_from_spec() -> bool {
        <ObjectItem as FromSpec<I>>::obeys_from_spec()
    }

    open spec fn from_spec(value: SuperBlockRecordV46<I>) -> Self {
        match value {
            SuperBlockRecordV46::Extent(extent) => SuperBlockRecordV47::Extent(extent),
            SuperBlockRecordV46::ObjectItem(item) => SuperBlockRecordV47::ObjectItem(<ObjectItem as FromSpec<I>>::from_spec(item)),
            SuperBlockRecordV46::End => SuperBlockRecordV47::End,
        }
    }
}

/// A record of a super-block in version 43 of the format.
#[derive(Debug)]
pub enum SuperBlockRecordV43<I> {
    Extent(DeviceRange),
    ObjectItem(I),
    End,
}

impl<I, J: From<I>> From<SuperBlockRecordV43<I>> for SuperBlockRecordV46<J> {
    fn from(value: SuperBlockRecordV43<I>) -> (converted: Self) {
        match value {
            SuperBlockRecordV43::Extent(extent) => SuperBlockRecordV46::Extent(extent),
            SuperBlockRecordV43::ObjectItem(item) => SuperBlockRecordV46::ObjectItem(J::from(item)),
            SuperBlockRecordV43::End => SuperBlockRecordV46::End,
        }
    }
}

impl<I, J: From<I>> vstd::std_specs::convert::FromSpecImpl<SuperBlockRecordV43<I>> for SuperBlockRecordV46<J> {
    open spec fn obeys_from_spec() -> bool {
        <J as FromSpec<I>>::obeys_from_spec()
    }

    open spec fn from_spec(value: SuperBlockRecordV43<I>) -> Self {
        match value {
            SuperBlockRecordV43::Extent(extent) => SuperBlockRecordV46::Extent(extent),
            SuperBlockRecordV43::ObjectItem(item) => SuperBlockRecordV46::ObjectItem(<J as FromSpec<I>>::from_spec(item)),
            SuperBlockRecordV43::End => SuperBlockRecordV46::End,
        }
    }
}

/// A record of a super-block in version 41 of the format.
#[derive(Debug)]
pub enum SuperBlockRecordV41<I> {
    Extent(DeviceRange),
    ObjectItem(I),
    End,
}

impl<I, J: From<I>> From<SuperBlockRecordV41<I>> for SuperBlockRecordV43<J> {
    fn from(value: SuperBlockRecordV41<I>) -> (converted: Self) {
        match value {
            SuperBlockRecordV41::Extent(extent) => SuperBlockRecordV43::Extent(extent),
            SuperBlockRecordV41::ObjectItem(item) => SuperBlockRecordV43::ObjectItem(J::from(item)),
            SuperBlockRecordV41::End => SuperBlockRecordV43::End,
        }
    }
}

impl<I, J: From<I>> vstd::std_specs::convert::FromSpecImpl<SuperBlockRecordV41<I>> for SuperBlockRecordV43<J> {
    open spec fn obeys_from_spec() -> bool {
        <J as FromSpec<I>>::obeys_from_spec()
    }

    open spec fn from_spec(value: SuperBlockRecordV41<I>) -> Self {
        match value {
            SuperBlockRecordV41::Extent(extent) => SuperBlockRecordV43::Extent(extent),
            SuperBlockRecordV41::ObjectItem(item) => SuperBlockRecordV43::ObjectItem(<J as FromSpec<I>>::from_spec(item)),
            SuperBlockRecordV41::End => SuperBlockRecordV43::End,
        }
    }
}

/// A record of a super-block in version 40 of the format.
#[derive(Debug)]
pub enum SuperBlockRecordV40<I> {
    Extent(DeviceRange),
    ObjectItem(I),
    End,
}

impl<I, J: From<I>> From<SuperBlockRecordV40<I>> for SuperBlockRecordV41<J> {
    fn from(value: SuperBlockRecordV40<I>) -> (converted: Self) {
        match value {
            SuperBlockRecordV40::Extent(extent) => SuperBlockRecordV41::Extent(extent),
            SuperBlockRecordV40::ObjectItem(item) => SuperBlockRecordV41::ObjectItem(J::from(item)),
            SuperBlockRecordV40::End => SuperBlockRecordV41::End,
        }
    }
}

impl<I, J: From<I>> vstd::std_specs::convert::FromSpecImpl<SuperBlockRecordV40<I>> for SuperBlockRecordV41<J> {
    open spec fn obeys_from_spec() -> bool {
        <J as FromSpec<I>>::obeys_from_spec()
    }

    open spec fn from_spec(value: SuperBlockRecordV40<I>) -> Self {
        match value {
            SuperBlockRecordV40::Extent(extent) => SuperBlockRecordV41::Extent(extent),
            SuperBlockRecordV40::ObjectItem(item) => SuperBlockRecordV41::ObjectItem(<J as FromSpec<I>>::from_spec(item)),
            SuperBlockRecordV40::End => SuperBlockRecordV41::End,
        }
    }
}

/// A mutation of an object in version 46 of the format.
#[derive(Debug)]
pub struct ObjectStoreMutationV46<I> {
    pub item: I,
    pub op: OperationV32,
}

impl<I> From<ObjectStoreMutationV46<I>> for ObjectStoreMutationV47 where ObjectItem: From<I> {
    fn from(value: ObjectStoreMutationV46<I>) -> (converted: Self) {
        ObjectStoreMutationV47 { item: ObjectItem::from(value.item), op: value.op }
    }
}

impl<I> vstd::std_specs::convert::FromSpecImpl<ObjectStoreMutationV46<I>> for ObjectStoreMutationV47 where ObjectItem: From<I> {
    open spec fn obeys_from_spec() -> bool {
        <ObjectItem as FromSpec<I>>::obeys_from_spec()
    }

    open spec fn from_spec(value: ObjectStoreMutationV46<I>) -> Self {
        ObjectStoreMutationV47 { item: <ObjectItem as FromSpec<I>>::from_spec(value.item), op: value.op }
    }
}

/// A mutation of an object in version 43 of the format.
#[derive(Debug)]
pub struct ObjectStoreMutationV43<I> {
    pub item: I,
    pub op: OperationV32,
}

impl<I, J: From<I>> From<ObjectStoreMutationV43<I>> for ObjectStoreMutationV46<J> {
    fn from(value: ObjectStoreMutationV43<I>) -> (converted: Self) {
        ObjectStoreMutationV46 { item: J::from(value.item), op: value.op }
    }
}

impl<I, J: From<I>> vstd::std_specs::convert::FromSpecImpl<ObjectStoreMutationV43<I>> for ObjectStoreMutationV46<J> {
    open spec fn obeys_from_spec() -> bool {
        <J as FromSpec<I>>::obeys_from_spec()
    }

    open spec fn from_spec(value: ObjectStoreMutationV43<I>) -> Self {
        ObjectStoreMutationV46 { item: <J as FromSpec<I>>::from_spec(value.item), op: value.op }
    }
}

/// A mutation of an object in version 41 of the format.
#[derive(Debug)]
pub struct ObjectStoreMutationV41<I> {
    pub item: I,
    pub op: OperationV32,
}

impl<I, J: From<I>> From<ObjectStoreMutationV41<I>> for ObjectStoreMutationV43<J> {
    fn from(value: ObjectStoreMutationV41<I>) -> (converted: Self) {
        ObjectStoreMutationV43 { item: J::from(value.item), op: value.op }
    }
}

impl<I, J: From<I>> vstd::std_specs::convert::FromSpecImpl<ObjectStoreMutationV41<I>> for ObjectStoreMutationV43<J> {
    open spec fn obeys_from_spec() -> bool {
        <J as FromSpec<I>>::obeys_from_spec()
    }

    open spec fn from_spec(value: ObjectStoreMutationV41<I>) -> Self {
        ObjectStoreMutationV43 { item: <J as FromSpec<I>>::from_spec(value.item), op: value.op }
    }
}

/// A mutation of an object in version 40 of the format.
#[derive(Debug)]
pub struct ObjectStoreMutationV40<I> {
    pub item: I,
    pub op: OperationV32,
}

impl<I, J: From<I>> From<ObjectStoreMutationV40<I>> for ObjectStoreMutationV41<J> {
    fn from(value: ObjectStoreMutationV40<I>) -> (converted: Self) {
        ObjectStoreMutationV41 { item: J::from(value.item), op: value.op }
    }
}

impl<I, J: From<I>> vstd::std_specs::convert::FromSpecImpl<ObjectStoreMutationV40<I>> for ObjectStoreMutationV41<J> {
    open spec fn obeys_from_spec() -> bool {
        <J as FromSpec<I>>::obeys_from_spec()
    }

    open spec fn from_spec(value: ObjectStoreMutationV40<I>) -> Self {
        ObjectStoreMutationV41 { item: <J as FromSpec<I>>::from_spec(value.item), op: value.op }
    }
}

/// A mutation in version 46 of the format.
#[derive(Debug)]
pub enum MutationV46<I> {
    ObjectStore(ObjectStoreMutationV46<I>),
    EncryptedObjectStore(Vec<u8>),
    Allocator(AllocatorMutationV32),
    BeginFlush,
    EndFlush,
    DeleteVolume,
    UpdateBorrowed(u64),
    UpdateMutationsKey(UpdateMutationsKeyV40),
    CreateInternalDir(u64),
}

impl<I> From<MutationV46<I>> for MutationV47 where ObjectItem: From<I> {
    fn from(value: MutationV46<I>) -> (converted: Self) {
        match value {
            MutationV46::ObjectStore(mutation) => MutationV47::ObjectStore(ObjectStoreMutationV47::from(mutation)),
            MutationV46::EncryptedObjectStore(data) => MutationV47::EncryptedObjectStore(data),
            MutationV46::Allocator(mutation) => MutationV47::Allocator(mutation),
            MutationV46::BeginFlush => MutationV47::BeginFlush,
            MutationV46::EndFlush => MutationV47::EndFlush,
            MutationV46::DeleteVolume => MutationV47::DeleteVolume,
            MutationV46::UpdateBorrowed(bytes) => MutationV47::UpdateBorrowed(bytes),
            MutationV46::UpdateMutationsKey(key) => MutationV47::UpdateMutationsKey(key),
            MutationV46::CreateInternalDir(object_id) => MutationV47::CreateInternalDir(object_id),
        }
    }
}

impl<I> vstd::std_specs::convert::FromSpecImpl<MutationV46<I>> for MutationV47 where ObjectItem: From<I> {
    open spec fn obeys_from_spec() -> bool {
        <ObjectItem as FromSpec<I>>::obeys_from_spec()
    }

    open spec fn from_spec(value: MutationV46<I>) -> Self {
        match value {
            MutationV46::ObjectStore(mutation) => MutationV47::ObjectStore(<ObjectStoreMutationV47 as FromSpec<ObjectStoreMutationV46<I>>>::from_spec(mutation)),
            MutationV46::EncryptedObjectStore(data) => MutationV47::EncryptedObjectStore(data),
            MutationV46::Allocator(mutation) => MutationV47::Allocator(mutation),
            MutationV46::BeginFlush => MutationV47::BeginFlush,
            MutationV46::EndFlush => MutationV47::EndFlush,
            MutationV46::DeleteVolume => MutationV47::DeleteVolume,
            MutationV46::UpdateBorrowed(bytes) => MutationV47::UpdateBorrowed(bytes),
            MutationV46::UpdateMutationsKey(key) => MutationV47::UpdateMutationsKey(key),
            MutationV46::CreateInternalDir(object_id) => MutationV47::CreateInternalDir(object_id),
        }
    }
}

/// A mutation in version 43 of the format.
#[derive(Debug)]
pub enum MutationV43<I> {
    ObjectStore(ObjectStoreMutationV43<I>),
    EncryptedObjectStore(Vec<u8>),
    Allocator(AllocatorMutationV32),
    BeginFlush,
    EndFlush,
    DeleteVolume,
    UpdateBorrowed(u64),
    UpdateMutationsKey(UpdateMutationsKeyV40),
    CreateInternalDir(u64),
}

impl<I, J: From<I>> From<MutationV43<I>> for MutationV46<J> {
    fn from(value: MutationV43<I>) -> (converted: Self) {
        match value {
            MutationV43::ObjectStore(mutation) => MutationV46::ObjectStore(ObjectStoreMutationV46::<J>::from(mutation)),
            MutationV43::EncryptedObjectStore(data) => MutationV46::EncryptedObjectStore(data),
            MutationV43::Allocator(mutation) => MutationV46::Allocator(mutation),
            MutationV43::BeginFlush => MutationV46::BeginFlush,
            MutationV43::EndFlush => MutationV46::EndFlush,
            MutationV43::DeleteVolume => MutationV46::DeleteVolume,
            MutationV43::UpdateBorrowed(bytes) => MutationV46::UpdateBorrowed(bytes),
            MutationV43::UpdateMutationsKey(key) => MutationV46::UpdateMutationsKey(key),
            MutationV43::CreateInternalDir(object_id) => MutationV46::CreateInternalDir(object_id),
        }
    }
}

impl<I, J: From<I>> vstd::std_specs::convert::FromSpecImpl<MutationV43<I>> for MutationV46<J> {
    open spec fn obeys_from_spec() -> bool {
        <J as FromSpec<I>>::obeys_from_spec()
    }

    open spec fn from_spec(value: MutationV43<I>) -> Self {
        match value {
            MutationV43::ObjectStore(mutation) => MutationV46::ObjectStore(<ObjectStoreMutationV46<J> as FromSpec<ObjectStoreMutationV43<I>>>::from_spec(mutation)),
            MutationV43::EncryptedObjectStore(data) => MutationV46::EncryptedObjectStore(data),
            MutationV43::Allocator(mutation) => MutationV46::Allocator(mutation),
            MutationV43::BeginFlush => MutationV46::BeginFlush,
            MutationV43::EndFlush => MutationV46::EndFlush,
            MutationV43::DeleteVolume => MutationV46::DeleteVolume,
            MutationV43::UpdateBorrowed(bytes) => MutationV46::UpdateBorrowed(bytes),
            MutationV43::UpdateMutationsKey(key) => MutationV46::UpdateMutationsKey(key),
            MutationV43::CreateInternalDir(object_id) => MutationV46::CreateInternalDir(object_id),
        }
    }
}

/// A mutation in version 41 of the format.
#[derive(Debug)]
pub enum MutationV41<I> {
    ObjectStore(ObjectStoreMutationV41<I>),
    EncryptedObjectStore(Vec<u8>),
    Allocator(AllocatorMutationV32),
    BeginFlush,
    EndFlush,
    DeleteVolume,
    UpdateBorrowed(u64),
    UpdateMutationsKey(UpdateMutationsKeyV40),
    CreateInternalDir(u64),
}

impl<I, J: From<I>> From<MutationV41<I>> for MutationV43<J> {
    fn from(value: MutationV41<I>) -> (converted: Self) {
        match value {
            MutationV41::ObjectStore(mutation) => MutationV43::ObjectStore(ObjectStoreMutationV43::<J>::from(mutation)),
            MutationV41::EncryptedObjectStore(data) => MutationV43::EncryptedObjectStore(data),
            MutationV41::Allocator(mutation) => MutationV43::Allocator(mutation),
            MutationV41::BeginFlush => MutationV43::BeginFlush,
            MutationV41::EndFlush => MutationV43::EndFlush,
            MutationV41::DeleteVolume => MutationV43::DeleteVolume,
            MutationV41::UpdateBorrowed(bytes) => MutationV43::UpdateBorrowed(bytes),
            MutationV41::UpdateMutationsKey(key) => MutationV43::UpdateMutationsKey(key),
            MutationV41::CreateInternalDir(object_id) => MutationV43::CreateInternalDir(object_id),
        }
    }
}

impl<I, J: From<I>> vstd::std_specs::convert::FromSpecImpl<MutationV41<I>> for MutationV43<J> {
    open spec fn obeys_from_spec() -> bool {
        <J as FromSpec<I>>::obeys_from_spec()
    }

    open spec fn from_spec(value: MutationV41<I>) -> Self {
        match value {
            MutationV41::ObjectStore(mutation) => MutationV43::ObjectStore(<ObjectStoreMutationV43<J> as FromSpec<ObjectStoreMutationV41<I>>>::from_spec(mutation)),
            MutationV41::EncryptedObjectStore(data) => MutationV43::EncryptedObjectStore(data),
            MutationV41::Allocator(mutation) => MutationV43::Allocator(mutation),
            MutationV41::BeginFlush => MutationV43::BeginFlush,
            MutationV41::EndFlush => MutationV43::EndFlush,
            MutationV41::DeleteVolume => MutationV43::DeleteVolume,
            MutationV41::UpdateBorrowed(bytes) => MutationV43::UpdateBorrowed(bytes),
            MutationV41::UpdateMutationsKey(key) => MutationV43::UpdateMutationsKey(key),
            MutationV41::CreateInternalDir(object_id) => MutationV43::CreateInternalDir(object_id),
        }
    }
}

/// A mutation in version 40 of the format.
#[derive(Debug)]
pub enum MutationV40<I> {
    ObjectStore(ObjectStoreMutationV40<I>),
    EncryptedObjectStore(Vec<u8>),
    Allocator(AllocatorMutationV32),
    BeginFlush,
    EndFlush,
    DeleteVolume,
    UpdateBorrowed(u64),
    UpdateMutationsKey(UpdateMutationsKeyV40),
    CreateInternalDir(u64),
}

impl<I, J: From<I>> From<MutationV40<I>> for MutationV41<J> {
    fn from(value: MutationV40<I>) -> (converted: Self) {
        match value {
            MutationV40::ObjectStore(mutation) => MutationV41::ObjectStore(ObjectStoreMutationV41::<J>::from(mutation)),
            MutationV40::EncryptedObjectStore(data) => MutationV41::EncryptedObjectStore(data),
            MutationV40::Allocator(mutation) => MutationV41::Allocator(mutation),
            MutationV40::BeginFlush => MutationV41::BeginFlush,
            MutationV40::EndFlush => MutationV41::EndFlush,
            MutationV40::DeleteVolume => MutationV41::DeleteVolume,
            MutationV40::UpdateBorrowed(bytes) => MutationV41::UpdateBorrowed(bytes),
            MutationV40::UpdateMutationsKey(key) => MutationV41::UpdateMutationsKey(key),
            MutationV40::CreateInternalDir(object_id) => MutationV41::CreateInternalDir(object_id),
        }
    }
}

impl<I, J: From<I>> vstd::std_specs::convert::FromSpecImpl<MutationV40<I>> for MutationV41<J> {
    open spec fn obeys_from_spec() -> bool {
        <J as FromSpec<I>>::obeys_from_spec()
    }

    open spec fn from_spec(value: MutationV40<I>) -> Self {
        match value {
            MutationV40::ObjectStore(mutation) => MutationV41::ObjectStore(<ObjectStoreMutationV41<J> as FromSpec<ObjectStoreMutationV40<I>>>::from_spec(mutation)),
            MutationV40::EncryptedObjectStore(data) => MutationV41::EncryptedObjectStore(data),
            MutationV40::Allocator(mutation) => MutationV41::Allocator(mutation),
            MutationV40::BeginFlush => MutationV41::BeginFlush,
            MutationV40::EndFlush => MutationV41::EndFlush,
            MutationV40::DeleteVolume => MutationV41::DeleteVolume,
            MutationV40::UpdateBorrowed(bytes) => MutationV41::UpdateBorrowed(bytes),
            MutationV40::UpdateMutationsKey(key) => MutationV41::UpdateMutationsKey(key),
            MutationV40::CreateInternalDir(object_id) => MutationV41::CreateInternalDir(object_id),
        }
    }
}

/// A mutations key in version 32 of the format.
#[derive(Debug)]
pub struct UpdateMutationsKeyV32<I>(pub I);

impl<I> From<UpdateMutationsKeyV32<I>> for UpdateMutationsKeyV40 where FxfsKey: From<I> {
    fn from(value: UpdateMutationsKeyV32<I>) -> (converted: Self) {
        UpdateMutationsKeyV40(FxfsKey::from(value.0))
    }
}

impl<I> vstd::std_specs::convert::FromSpecImpl<UpdateMutationsKeyV32<I>> for UpdateMutationsKeyV40 where FxfsKey: From<I> {
    open spec fn obeys_from_spec() -> bool {
        <FxfsKey as FromSpec<I>>::obeys_from_spec()
    }

    open spec fn from_spec(value: UpdateMutationsKeyV32<I>) -> Self {
        UpdateMutationsKeyV40(<FxfsKey as FromSpec<I>>::from_spec(value.0))
    }
}

/// What is stored about an object store in version 36 of the format.
#[derive(Debug)]
pub struct StoreInfoV36<I> {
    pub guid: [u8; 16],
    pub last_object_id: u64,
    pub layers: Vec<u64>,
    pub root_directory_object_id: u64,
    pub graveyard_directory_object_id: u64,
    pub object_count: u64,
    pub mutations_key: Option<I>,
    pub mutations_cipher_offset: u64,
    pub encrypted_mutations_object_id: u64,
    pub object_id_key: Option<I>,
    pub internal_directory_object_id: u64,
}

impl<I> From<StoreInfoV36<I>> for StoreInfoV40 where FxfsKey: From<I> {
    fn from(value: StoreInfoV36<I>) -> (converted: Self) {
        StoreInfoV40 {
            guid: value.guid,
            last_object_id: value.last_object_id,
            layers: value.layers,
            root_directory_object_id: value.root_directory_object_id,
            graveyard_directory_object_id: value.graveyard_directory_object_id,
            object_count: value.object_count,
            mutations_key: match value.mutations_key {
                Some(key) => Some(FxfsKey::from(key)),
                None => None,
            },
            mutations_cipher_offset: value.mutations_cipher_offset,
            encrypted_mutations_object_id: value.encrypted_mutations_object_id,
            object_id_key: match value.object_id_key {
                Some(key) => Some(FxfsKey::from(key)),
                None => None,
            },
            internal_directory_object_id: value.internal_directory_object_id,
        }
    }
}

impl<I> vstd::std_specs::convert::FromSpecImpl<StoreInfoV36<I>> for StoreInfoV40 where FxfsKey: From<I> {
    open spec fn obeys_from_spec() -> bool {
        <FxfsKey as FromSpec<I>>::obeys_from_spec()
    }

    open spec fn from_spec(value: StoreInfoV36<I>) -> Self {
        StoreInfoV40 {
            guid: value.guid,
            last_object_id: value.last_object_id,
            layers: value.layers,
            root_directory_object_id: value.root_directory_object_id,
            graveyard_directory_object_id: value.graveyard_directory_object_id,
            object_count: value.object_count,
            mutations_key: match value.mutations_key {
                Some(key) => Some(<FxfsKey as FromSpec<I>>::from_spec(key)),
                None => None,
            },
            mutations_cipher_offset: value.mutations_cipher_offset,
            encrypted_mutations_object_id: value.encrypted_mutations_object_id,
            object_id_key: match value.object_id_key {
                Some(key) => Some(<FxfsKey as FromSpec<I>>::from_spec(key)),
                None => None,
            },
            internal_directory_object_id: value.internal_directory_object_id,
        }
    }
}

/// What is stored about an object store in version 32 of the format.
#[derive(Debug)]
pub struct StoreInfoV32<I> {
    pub guid: [u8; 16],
    pub last_object_id: u64,
    pub layers: Vec<u64>,
    pub root_directory_object_id: u64,
    pub graveyard_directory_object_id: u64,
    pub object_count: u64,
    pub mutations_key: Option<I>,
    pub mutations_cipher_offset: u64,
    pub encrypted_mutations_object_id: u64,
    pub object_id_key: Option<I>,
}

impl<I> From<StoreInfoV32<I>> for StoreInfoV36<I> {
    fn from(value: StoreInfoV32<I>) -> (converted: Self) {
        StoreInfoV36 {
            guid: value.guid,
            last_object_id: value.last_object_id,
            layers: value.layers,
            root_directory_object_id: value.root_directory_object_id,
            graveyard_directory_object_id: value.graveyard_directory_object_id,
            object_count: value.object_count,
            mutations_key: value.mutations_key,
            mutations_cipher_offset: value.mutations_cipher_offset,
            encrypted_mutations_object_id: value.encrypted_mutations_object_id,
            object_id_key: value.object_id_key,
            internal_directory_object_id: INVALID_OBJECT_ID,
        }
    }
}

impl<I> vstd::std_specs::convert::FromSpecImpl<StoreInfoV32<I>> for StoreInfoV36<I> {
    open spec fn obeys_from_spec() -> bool {
        true
    }

    open spec fn from_spec(value: StoreInfoV32<I>) -> Self {
        StoreInfoV36 {
            guid: value.guid,
            last_object_id: value.last_object_id,
            layers: value.layers,
            root_directory_object_id: value.root_directory_object_id,
            graveyard_directory_object_id: value.graveyard_directory_object_id,
            object_count: value.object_count,
            mutations_key: value.mutations_key,
            mutations_cipher_offset: value.mutations_cipher_offset,
            encrypted_mutations_object_id: value.encrypted_mutations_object_id,
            object_id_key: value.object_id_key,
            internal_directory_object_id: INVALID_OBJECT_ID,
        }
    }
}

/// A record that is converted from version to version keeps everything but its item, and the item is
/// converted by all of these versions in turn.
pub proof fn lemma_records_keep_their_shape<I40, I41: From<I40>, I43: From<I41>, I46: From<I43>>(
    record: SuperBlockRecordV40<I40>,
) where ObjectItem: From<I46>
    ensures
        ({
            let v41 = <SuperBlockRecordV41<I41> as FromSpec<SuperBlockRecordV40<I40>>>::from_spec(
                record,
            );
            let v43 = <SuperBlockRecordV43<I43> as FromSpec<SuperBlockRecordV41<I41>>>::from_spec(v41);
            let v46 = <SuperBlockRecordV46<I46> as FromSpec<SuperBlockRecordV43<I43>>>::from_spec(v43);
            let v47 = <SuperBlockRecordV47 as FromSpec<SuperBlockRecordV46<I46>>>::from_spec(v46);
            match record {
                SuperBlockRecordV40::Extent(extent) => v47 == SuperBlockRecordV47::Extent(extent),
                SuperBlockRecordV40::End => v47 == SuperBlockRecordV47::End,
                SuperBlockRecordV40::ObjectItem(item) => {
                    let item = <I41 as FromSpec<I40>>::from_spec(item);
                    let item = <I43 as FromSpec<I41>>::from_spec(item);
                    let item = <I46 as FromSpec<I43>>::from_spec(item);
                    v47 == SuperBlockRecordV47::ObjectItem(
                        <ObjectItem as FromSpec<I46>>::from_spec(item),
                    )
                },
            }
        }),
{
}

/// A mutation that is converted from version to version stays the same kind of mutation with the same content; only an
/// item is converted, by all of these versions in turn, and the operation on it stays.
pub proof fn lemma_mutations_keep_their_shape<I40, I41: From<I40>, I43: From<I41>, I46: From<I43>>(
    mutation: MutationV40<I40>,
) where ObjectItem: From<I46>
    ensures
        ({
            let v41 = <MutationV41<I41> as FromSpec<MutationV40<I40>>>::from_spec(mutation);
            let v43 = <MutationV43<I43> as FromSpec<MutationV41<I41>>>::from_spec(v41);
            let v46 = <MutationV46<I46> as FromSpec<MutationV43<I43>>>::from_spec(v43);
            let v47 = <MutationV47 as FromSpec<MutationV46<I46>>>::from_spec(v46);
            match mutation {
                MutationV40::ObjectStore(ObjectStoreMutationV40 { item, op }) => {
                    let item = <I41 as FromSpec<I40>>::from_spec(item);
                    let item = <I43 as FromSpec<I41>>::from_spec(item);
                    let item = <I46 as FromSpec<I43>>::from_spec(item);
                    &&& v47 matches MutationV47::ObjectStore(converted)
                    &&& converted.op == op
                    &&& converted.item == <ObjectItem as FromSpec<I46>>::from_spec(item)
                },
                MutationV40::EncryptedObjectStore(data) => v47 == MutationV47::EncryptedObjectStore(data),
                MutationV40::Allocator(mutation) => v47 == MutationV47::Allocator(mutation),
                MutationV40::BeginFlush => v47 is BeginFlush,
                MutationV40::EndFlush => v47 is EndFlush,
                MutationV40::DeleteVolume => v47 is DeleteVolume,
                MutationV40::UpdateBorrowed(bytes) => v47 == MutationV47::UpdateBorrowed(bytes),
                MutationV40::UpdateMutationsKey(key) => v47 == MutationV47::UpdateMutationsKey(key),
                MutationV40::CreateInternalDir(object_id) => v47 == MutationV47::CreateInternalDir(
                    object_id,
                ),
            }
        }),
{
}

/// Each conversion of a mutation of an object converts the item, and keeps the operation.
pub proof fn lemma_operations_stay<I, J: From<I>, K>(
    v40: ObjectStoreMutationV40<I>,
    v41: ObjectStoreMutationV41<I>,
    v43: ObjectStoreMutationV43<I>,
    v46: ObjectStoreMutationV46<K>,
) where ObjectItem: From<K>
    ensures
        ({
            let converted = <ObjectStoreMutationV41<J> as FromSpec<ObjectStoreMutationV40<I>>>::from_spec(v40);
            converted.op == v40.op && converted.item == <J as FromSpec<I>>::from_spec(v40.item)
        }),
        ({
            let converted = <ObjectStoreMutationV43<J> as FromSpec<ObjectStoreMutationV41<I>>>::from_spec(v41);
            converted.op == v41.op && converted.item == <J as FromSpec<I>>::from_spec(v41.item)
        }),
        ({
            let converted = <ObjectStoreMutationV46<J> as FromSpec<ObjectStoreMutationV43<I>>>::from_spec(v43);
            converted.op == v43.op && converted.item == <J as FromSpec<I>>::from_spec(v43.item)
        }),
        ({
            let converted = <ObjectStoreMutationV47 as FromSpec<ObjectStoreMutationV46<K>>>::from_spec(v46);
            converted.op == v46.op && converted.item == <ObjectItem as FromSpec<K>>::from_spec(v46.item)
        }),
{
}

/// What is stored about a store in the earliest version is kept by the latest one, with its keys converted; there is no
/// directory for internal files.
pub proof fn lemma_store_infos_are_kept<I>(info: StoreInfoV32<I>) where FxfsKey: From<I>
    ensures
        ({
            let v36 = <StoreInfoV36<I> as FromSpec<StoreInfoV32<I>>>::from_spec(info);
            let v40 = <StoreInfoV40 as FromSpec<StoreInfoV36<I>>>::from_spec(v36);
            &&& v40.guid == info.guid
            &&& v40.last_object_id == info.last_object_id
            &&& v40.layers == info.layers
            &&& v40.root_directory_object_id == info.root_directory_object_id
            &&& v40.graveyard_directory_object_id == info.graveyard_directory_object_id
            &&& v40.object_count == info.object_count
            &&& v40.mutations_cipher_offset == info.mutations_cipher_offset
            &&& v40.encrypted_mutations_object_id == info.encrypted_mutations_object_id
            &&& v40.mutations_key is Some <==> info.mutations_key is Some
            &&& info.mutations_key matches Some(key) ==> v40.mutations_key == Some(
                <FxfsKey as FromSpec<I>>::from_spec(key),
            )
            &&& v40.object_id_key is Some <==> info.object_id_key is Some
            &&& info.object_id_key matches Some(key) ==> v40.object_id_key == Some(
                <FxfsKey as FromSpec<I>>::from_spec(key),
            )
            &&& v40.internal_directory_object_id == 0
        }),
{
}

/// The directory for internal files of a store is kept by the latest version, and so are the rest of what is stored about
/// it and the keys.
pub proof fn lemma_internal_directory_is_kept<I>(info: StoreInfoV36<I>, key: UpdateMutationsKeyV32<I>) where
    FxfsKey: From<I>,

    ensures
        <StoreInfoV40 as FromSpec<StoreInfoV36<I>>>::from_spec(info).internal_directory_object_id
            == info.internal_directory_object_id,
        <UpdateMutationsKeyV40 as FromSpec<UpdateMutationsKeyV32<I>>>::from_spec(key).0
            == <FxfsKey as FromSpec<I>>::from_spec(key.0),
{
}

} // verus!
