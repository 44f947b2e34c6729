//! Object stores: what they keep in memory, and what their operations add to transactions.
use crate::attributes::{
    access_time_change, apply_attributes, attributes_after, no_change, set_attributes,
    should_update_access_time, spec_no_change, spec_should_update_access_time, with_attributes,
    MutableNodeAttributes, DAY_NANOS,
};
use crate::errors::FxfsError;
use crate::guid::{guid_text, guid_to_string};
use crate::lock_keys::{LockKey, LockKeys};
use crate::object_record::{
    AttributeKey, FxfsKey, ObjectAttributes, ObjectItem, ObjectKey, ObjectKeyData, ObjectKind,
    ObjectValue, Timestamp, DEFAULT_DATA_ATTRIBUTE_ID, FSCRYPT_KEY_ID, INVALID_OBJECT_ID,
    VOLUME_DATA_KEY_ID,
};
use crate::store_info::{LastObjectId, StoreInfo, StoreInfoV40};
use crate::store_open::OpenedObject;
use crate::transaction::{
    in_order, lemma_added_is_held, Mutation, MutationV47, ObjectStoreMutation, OperationV32,
    Transaction, TxnView,
};
use vstd::prelude::*;

verus! {

/// A handle's options.
#[derive(Clone, Copy, Debug, PartialEq, Eq, Structural)]
pub struct HandleOptions {
    /// If true, transactions used by this handle will skip journal space checks.
    pub skip_journal_checks: bool,
    /// If true, data written to any attribute of this handle will not have per-block checksums
    /// computed.
    pub skip_checksums: bool,
}

impl Default for HandleOptions {
    fn default() -> (options: Self)
        ensures
            !options.skip_journal_checks,
            !options.skip_checksums,
    {
        HandleOptions { skip_journal_checks: false, skip_checksums: false }
    }
}

/// The key of a new object.
#[derive(Clone, Copy)]
pub struct ObjectEncryptionOptions {
    /// If set, the keys are treated as permanent (never evicted from the cache of keys).
    pub permanent: bool,
    pub key_id: u64,
    pub key: FxfsKey,
}

/// Whether the content of a store can be read.
#[derive(Clone, Copy, Debug, PartialEq, Eq, Structural)]
pub enum LockState {
    Locked,
    Unencrypted,
    Unlocked,
    /// The store is unlocked, but in a read-only state, and no flushes or other operations will be
    /// performed on the store.
    UnlockedReadOnly,
    /// The store is encrypted but is now in an unusable state (due to a failure to sync the journal
    /// after locking the store).  The store cannot be unlocked.
    Invalid,
    /// Before we've read the StoreInfo we might not know whether the store is Locked or Unencrypted.
    /// This can happen when lazily opening stores.
    Unknown,
    /// The store is in the process of being locked.  Whilst the store is being locked, the store
    /// isn't usable; assertions will trip if any mutations are applied.
    Locking,
    /// Whilst we're unlocking, we will replay encrypted mutations.  The store isn't usable until
    /// it's in the Unlocked state.
    Unlocking,
}

impl LockState {
    /// Returns the name of the state.
    pub fn as_str(&self) -> (name: &'static str)
        ensures
            name@ == (match *self {
                LockState::Locked => "Locked"@,
                LockState::Unencrypted => "Unencrypted"@,
                LockState::Unlocked => "Unlocked"@,
                LockState::UnlockedReadOnly => "UnlockedReadOnly"@,
                LockState::Invalid => "Invalid"@,
                LockState::Unknown => "Unknown"@,
                LockState::Locking => "Locking"@,
                LockState::Unlocking => "Unlocking"@,
            }),
    {
        match self {
            LockState::Locked => "Locked",
            LockState::Unencrypted => "Unencrypted",
            LockState::Unlocked => "Unlocked",
            LockState::UnlockedReadOnly => "UnlockedReadOnly",
            LockState::Invalid => "Invalid",
            LockState::Unknown => "Unknown",
            LockState::Locking => "Locking",
            LockState::Unlocking => "Unlocking",
        }
    }
}

/// The store in which a store is kept.
#[derive(Clone, Copy, Debug, PartialEq, Eq, Structural)]
pub struct ParentStore {
    pub store_object_id: u64,
    /// Whether that store is kept in a store itself.
    pub has_parent: bool,
}

/// Informational counters for events occurring within the store.
pub struct ObjectStoreCounters {
    pub mutations_applied: u64,
    pub mutations_dropped: u64,
    pub num_flushes: u64,
    /// In milliseconds since the epoch.
    pub last_flush_time: Option<u64>,
    pub persistent_layer_file_sizes: Vec<u64>,
}

impl ObjectStoreCounters {
    /// Nothing was counted yet.
    pub open spec fn is_zero(self) -> bool {
        &&& self.mutations_applied == 0
        &&& self.mutations_dropped == 0
        &&& self.num_flushes == 0
        &&& self.last_flush_time is None
        &&& self.persistent_layer_file_sizes@.len() == 0
    }
}

impl Default for ObjectStoreCounters {
    fn default() -> (counters: Self)
        ensures
            counters.is_zero(),
    {
        ObjectStoreCounters {
            mutations_applied: 0,
            mutations_dropped: 0,
            num_flushes: 0,
            last_flush_time: None,
            persistent_layer_file_sizes: Vec::new(),
        }
    }
}

/// An object store supports a file like interface for objects.  Objects are keyed by a 64 bit
/// identifier.  And object store has to be backed by a parent object store (which stores metadata
/// for the object store).  The top-level object store (a.k.a. the root parent object store) is
/// in-memory only.
pub struct ObjectStore {
    pub parent_store: Option<ParentStore>,
    pub store_object_id: u64,
    pub block_size: u64,
    /// None while the store is locked.
    pub store_info: Option<StoreInfo>,
    pub lock_state: LockState,
    pub counters: ObjectStoreCounters,
    pub last_object_id: LastObjectId,
    /// Whether tracing is enabled.
    pub trace: bool,
}

/// How often a store read and wrote.
#[derive(Clone, Copy, Debug, PartialEq, Eq, Structural)]
pub struct OpCounts {
    pub device_read_ops: u64,
    pub device_write_ops: u64,
    pub logical_read_ops: u64,
    pub logical_write_ops: u64,
}

/// What is published about a store, apart from its tree.
#[derive(Debug)]
pub struct StoreData {
    /// None while the store is locked.
    pub guid: Option<String>,
    pub store_object_id: u64,
    pub mutations_applied: u64,
    pub mutations_dropped: u64,
    pub num_flushes: u64,
    pub last_flush_time_ms: Option<u64>,
    pub persistent_layer_file_sizes: Vec<u64>,
    pub ops: OpCounts,
}

/// Why an operation on a store failed.
#[derive(Clone, Copy, Debug, PartialEq, Eq, Structural)]
pub enum StoreError {
    Fxfs(FxfsError),
    /// The reference count would not fit.
    RefsOverflow,
    /// The mutation is not one that a store applies.
    UnexpectedMutation,
}

/// What applying a mutation does to the tree of a store.
pub enum TreeChange {
    Unchanged,
    Insert(ObjectItem),
    ReplaceOrInsert(ObjectItem),
    MergeInto(ObjectItem),
    Seal,
}

/// `item` as it is written at `offset` of the journal.
pub open spec fn sequenced(item: ObjectItem, offset: u64) -> ObjectItem {
    ObjectItem { sequence: offset, ..item }
}

impl ObjectStore {
    /// Creates a store in memory.
    pub fn new(
        parent_store: Option<ParentStore>,
        store_object_id: u64,
        block_size: u64,
        store_info: Option<StoreInfo>,
        lock_state: LockState,
        last_object_id: LastObjectId,
    ) -> (store: Self)
        ensures
            store.parent_store == parent_store,
            store.store_object_id == store_object_id,
            store.block_size == block_size,
            store.store_info == store_info,
            store.lock_state == lock_state,
            store.last_object_id == last_object_id,
            store.counters.is_zero(),
            !store.trace,
    {
        ObjectStore {
            parent_store,
            store_object_id,
            block_size,
            store_info,
            lock_state,
            counters: ObjectStoreCounters::default(),
            last_object_id,
            trace: false,
        }
    }

    /// Creates an unencrypted store with nothing in it.
    pub fn new_empty(
        parent_store: Option<ParentStore>,
        store_object_id: u64,
        block_size: u64,
    ) -> (store: Self)
        ensures
            store.parent_store == parent_store,
            store.store_object_id == store_object_id,
            store.block_size == block_size,
            store.store_info matches Some(info) && info.is_blank(),
            store.lock_state == LockState::Unencrypted,
            store.last_object_id.id == 0,
            !store.last_object_id.has_cipher,
            store.counters.is_zero(),
            !store.trace,
    {
        ObjectStore::new(
            parent_store,
            store_object_id,
            block_size,
            Some(StoreInfoV40::default()),
            LockState::Unencrypted,
            LastObjectId::default(),
        )
    }

    /// Creates the root parent store.
    pub fn new_root_parent(block_size: u64, store_object_id: u64) -> (store: Self)
        ensures
            store.parent_store is None,
            store.store_object_id == store_object_id,
            store.block_size == block_size,
            store.store_info matches Some(info) && info.is_blank(),
            store.lock_state == LockState::Unencrypted,
            store.last_object_id.id == 0,
            !store.last_object_id.has_cipher,
            store.counters.is_zero(),
            !store.trace,
    {
        ObjectStore::new_empty(None, store_object_id, block_size)
    }

    /// The place of this store as the parent of others.
    pub open spec fn as_parent(self) -> ParentStore {
        ParentStore {
            store_object_id: self.store_object_id,
            has_parent: self.parent_store is Some,
        }
    }

    /// Creates a child store, which is kept in the object `object_id` of this store.  The store is
    /// encrypted if `keys`, the keys for its mutations and for its object IDs, are given.
    pub fn new_child_store(
        &self,
        object_id: u64,
        guid: [u8; 16],
        keys: Option<(FxfsKey, FxfsKey)>,
    ) -> (store: ObjectStore)
        ensures
            store.parent_store == Some(self.as_parent()),
            store.store_object_id == object_id,
            store.block_size == self.block_size,
            store.store_info matches Some(info) && {
                let blank = StoreInfoV40 { mutations_key: None, object_id_key: None, ..info };
                &&& blank.is_blank()
                &&& info.guid == guid
                &&& info.mutations_key == (match keys {
                    Some((key, _)) => Some(key),
                    None => None,
                })
                &&& info.object_id_key == (match keys {
                    Some((_, key)) => Some(key),
                    None => None,
                })
            },
            store.lock_state == (if keys is Some {
                LockState::Unlocked
            } else {
                LockState::Unencrypted
            }),
            store.last_object_id.has_cipher == (keys is Some),
            store.last_object_id.id == (if keys is Some {
                0x1_0000_0000u64
            } else {
                0u64
            }),
            store.counters.is_zero(),
            !store.trace,
    {
        let parent_store = Some(
            ParentStore {
                store_object_id: self.store_object_id,
                has_parent: self.parent_store.is_some(),
            },
        );
        let mut info = StoreInfoV40::with_guid(guid);
        match keys {
            Some((mutations_key, object_id_key)) => {
                info.mutations_key = Some(mutations_key);
                info.object_id_key = Some(object_id_key);
                ObjectStore::new(
                    parent_store,
                    object_id,
                    self.block_size,
                    Some(info),
                    LockState::Unlocked,
                    LastObjectId::new_encrypted(),
                )
            },
            None => ObjectStore::new(
                parent_store,
                object_id,
                self.block_size,
                Some(info),
                LockState::Unencrypted,
                LastObjectId::default(),
            ),
        }
    }

    /// Opens a child store, which is kept in the object `store_object_id` of this store: an encrypted
    /// store is locked at first.
    pub fn open(&self, store_object_id: u64, info: StoreInfo) -> (store: ObjectStore)
        ensures
            store.parent_store == Some(self.as_parent()),
            store.store_object_id == store_object_id,
            store.block_size == self.block_size,
            store.store_info == (if info.mutations_key is Some {
                None
            } else {
                Some(info)
            }),
            store.lock_state == (if info.mutations_key is Some {
                LockState::Locked
            } else {
                LockState::Unencrypted
            }),
            store.last_object_id.id == (if info.mutations_key is Some {
                0
            } else {
                info.last_object_id
            }),
            // What is encrypted cannot be read before it is unlocked, and what is not can be read at once.
            info.mutations_key is Some <==> store.spec_is_locked(),
            info.mutations_key is Some <==> store.store_info is None,
            store.store_info matches Some(opened) ==> opened == info && store.last_object_id.id
                == info.last_object_id,
            !store.last_object_id.has_cipher,
            store.counters.is_zero(),
            !store.trace,
    {
        let parent_store = Some(
            ParentStore {
                store_object_id: self.store_object_id,
                has_parent: self.parent_store.is_some(),
            },
        );
        if info.mutations_key.is_some() {
            ObjectStore::new(
                parent_store,
                store_object_id,
                self.block_size,
                None,
                LockState::Locked,
                LastObjectId::default(),
            )
        } else {
            let last_object_id = LastObjectId { id: info.last_object_id, has_cipher: false };
            ObjectStore::new(
                parent_store,
                store_object_id,
                self.block_size,
                Some(info),
                LockState::Unencrypted,
                last_object_id,
            )
        }
    }

    /// Returns what is published about the store.
    pub fn record_data(&self, ops: OpCounts) -> (data: StoreData)
        ensures
            match (self.store_info, data.guid) {
                (Some(info), Some(guid)) => guid@ == guid_text(info.guid),
                (None, None) => true,
                _ => false,
            },
            data.store_object_id == self.store_object_id,
            data.mutations_applied == self.counters.mutations_applied,
            data.mutations_dropped == self.counters.mutations_dropped,
            data.num_flushes == self.counters.num_flushes,
            data.last_flush_time_ms == self.counters.last_flush_time,
            data.persistent_layer_file_sizes@ == self.counters.persistent_layer_file_sizes@,
            data.ops == ops,
    {
        let guid = match &self.store_info {
            Some(info) => Some(guid_to_string(info.guid)),
            None => None,
        };
        StoreData {
            guid,
            store_object_id: self.store_object_id,
            mutations_applied: self.counters.mutations_applied,
            mutations_dropped: self.counters.mutations_dropped,
            num_flushes: self.counters.num_flushes,
            last_flush_time_ms: self.counters.last_flush_time,
            persistent_layer_file_sizes: self.counters.persistent_layer_file_sizes.clone(),
            ops,
        }
    }

    /// Turns tracing on or off.  Returns whether that was a change.
    pub fn set_trace(&mut self, trace: bool) -> (changed: bool)
        ensures
            changed == (trace != old(self).trace),
            *final(self) == (ObjectStore { trace, ..*old(self) }),
    {
        let old_value = self.trace;
        self.trace = trace;
        trace != old_value
    }

    /// Returns whether this is the root store: the one whose parent has no parent itself.
    pub fn is_root(&self) -> (root: bool)
        ensures
            root == (self.parent_store matches Some(parent) && !parent.has_parent),
    {
        if let Some(parent) = &self.parent_store {
            !parent.has_parent
        } else {
            // The root parent store isn't the root store.
            false
        }
    }

    pub fn block_size(&self) -> (block_size: u64)
        ensures
            block_size == self.block_size,
    {
        self.block_size
    }

    pub fn store_object_id(&self) -> (id: u64)
        ensures
            id == self.store_object_id,
    {
        self.store_object_id
    }

    pub fn root_directory_object_id(&self) -> (id: u64)
        requires
            self.store_info is Some,
        ensures
            id == self.store_info->0.root_directory_object_id,
    {
        match &self.store_info {
            Some(info) => info.root_directory_object_id,
            None => INVALID_OBJECT_ID,
        }
    }

    pub fn graveyard_directory_object_id(&self) -> (id: u64)
        requires
            self.store_info is Some,
        ensures
            id == self.store_info->0.graveyard_directory_object_id,
    {
        match &self.store_info {
            Some(info) => info.graveyard_directory_object_id,
            None => INVALID_OBJECT_ID,
        }
    }

    /// Sets the graveyard directory of a store that has none yet.
    pub fn set_graveyard_directory_object_id(&mut self, oid: u64)
        requires
            old(self).store_info is Some,
            old(self).store_info->0.graveyard_directory_object_id == INVALID_OBJECT_ID,
        ensures
            *final(self) == (ObjectStore {
                store_info: Some(
                    StoreInfoV40 {
                        graveyard_directory_object_id: oid,
                        ..old(self).store_info->0
                    },
                ),
                ..*old(self)
            }),
    {
        match self.store_info.take() {
            Some(info) => {
                let mut info = info;
                info.graveyard_directory_object_id = oid;
                self.store_info = Some(info);
            },
            None => {},
        }
    }

    /// Records the directories that were made for a new store.
    pub fn set_directories(&mut self, graveyard_object_id: u64, root_object_id: u64)
        requires
            old(self).store_info is Some,
        ensures
            *final(self) == (ObjectStore {
                store_info: Some(
                    StoreInfoV40 {
                        graveyard_directory_object_id: graveyard_object_id,
                        root_directory_object_id: root_object_id,
                        ..old(self).store_info->0
                    },
                ),
                ..*old(self)
            }),
    {
        match self.store_info.take() {
            Some(info) => {
                let mut info = info;
                info.graveyard_directory_object_id = graveyard_object_id;
                info.root_directory_object_id = root_object_id;
                self.store_info = Some(info);
            },
            None => {},
        }
    }

    pub fn object_count(&self) -> (count: u64)
        requires
            self.store_info is Some,
        ensures
            count == self.store_info->0.object_count,
    {
        match &self.store_info {
            Some(info) => info.object_count,
            None => 0,
        }
    }

    /// Returns what is recorded about the store, unless the store is locked.
    pub fn store_info(&self) -> (info: Option<&StoreInfo>)
        ensures
            info == (match self.store_info {
                Some(info) => Some(&info),
                None => None,
            }),
    {
        match &self.store_info {
            Some(info) => Some(info),
            None => None,
        }
    }

    /// Returns the last object ID that was used, before it is encrypted.
    pub fn last_object_id(&self) -> (id: u64)
        ensures
            id == self.last_object_id.id,
    {
        self.last_object_id.id
    }

    /// Returns whether there is a crypt service for the store: not if the store is unencrypted or
    /// changes its state.
    pub fn has_crypt(&self) -> (has: bool)
        requires
            self.lock_state != LockState::Locked,
            self.lock_state != LockState::Unknown,
        ensures
            has == self.spec_has_crypt(),
            has == (self.lock_state == LockState::Unlocked || self.lock_state
                == LockState::UnlockedReadOnly),
    {
        matches!(self.lock_state, LockState::Unlocked | LockState::UnlockedReadOnly)
    }

    /// The store is locked, or will be, or may be.
    pub open spec fn spec_is_locked(self) -> bool {
        self.lock_state is Locked || self.lock_state is Locking || self.lock_state is Unknown
    }

    /// The content of the store can be read, or will be as soon as it is unlocked.
    pub open spec fn spec_is_unlocked(self) -> bool {
        self.lock_state is Unlocked || self.lock_state is UnlockedReadOnly || self.lock_state is Unlocking
    }

    /// There is a crypt service for the store.
    pub open spec fn spec_has_crypt(self) -> bool {
        self.lock_state is Unlocked || self.lock_state is UnlockedReadOnly
    }

    pub fn is_locked(&self) -> (locked: bool)
        ensures
            locked == self.spec_is_locked(),
    {
        matches!(self.lock_state, LockState::Locked | LockState::Locking | LockState::Unknown)
    }

    /// NB: This is not the converse of `is_locked`, as there are lock states where neither are
    /// true.
    pub fn is_unlocked(&self) -> (unlocked: bool)
        ensures
            unlocked == self.spec_is_unlocked(),
            unlocked == (self.lock_state == LockState::Unlocked || self.lock_state
                == LockState::UnlockedReadOnly || self.lock_state == LockState::Unlocking),
    {
        matches!(
            self.lock_state,
            LockState::Unlocked | LockState::UnlockedReadOnly | LockState::Unlocking
        )
    }

    pub fn is_unknown(&self) -> (unknown: bool)
        ensures
            unknown == (self.lock_state == LockState::Unknown),
    {
        matches!(self.lock_state, LockState::Unknown)
    }

    pub fn is_encrypted(&self) -> (encrypted: bool)
        requires
            self.store_info is Some,
        ensures
            encrypted == (self.store_info->0.mutations_key is Some),
    {
        match &self.store_info {
            Some(info) => info.mutations_key.is_some(),
            None => false,
        }
    }

    /// Returns all objects that exist in the parent store that pertain to this object store.
    /// Note that this doesn't include the object_id of the store itself which is generally
    /// referenced externally.
    pub fn parent_objects(&self) -> (objects: Vec<u64>)
        requires
            self.store_info is Some,
        ensures
            ({
                let info = self.store_info->0;
                objects@ == (if info.encrypted_mutations_object_id != INVALID_OBJECT_ID {
                    info.layers@.push(info.encrypted_mutations_object_id)
                } else {
                    info.layers@
                })
            }),
    {
        match &self.store_info {
            Some(info) => info.parent_objects(),
            None => Vec::new(),
        }
    }

    /// Returns root objects for this store.
    pub fn root_objects(&self) -> (objects: Vec<u64>)
        requires
            self.store_info is Some,
        ensures
            objects@ == self.store_info->0.spec_root_objects(),
    {
        match &self.store_info {
            Some(info) => info.root_objects(),
            None => Vec::new(),
        }
    }

    /// Notes a new key for object IDs, which is to be written before the cipher is rolled.
    pub fn set_object_id_key(&mut self, key: FxfsKey)
        requires
            old(self).store_info is Some,
        ensures
            *final(self) == (ObjectStore {
                store_info: Some(
                    StoreInfoV40 { object_id_key: Some(key), ..old(self).store_info->0 },
                ),
                ..*old(self)
            }),
    {
        match self.store_info.take() {
            Some(info) => {
                let mut info = info;
                info.object_id_key = Some(key);
                self.store_info = Some(info);
            },
            None => {},
        }
    }

    /// Returns the directory for internal files, if there is one yet.
    pub fn internal_directory_id(&self) -> (id: Option<u64>)
        requires
            self.store_info is Some,
        ensures
            id == (if self.store_info->0.internal_directory_object_id != INVALID_OBJECT_ID {
                Some(self.store_info->0.internal_directory_object_id)
            } else {
                None
            }),
    {
        match &self.store_info {
            Some(info) => if info.internal_directory_object_id != INVALID_OBJECT_ID {
                Some(info.internal_directory_object_id)
            } else {
                None
            },
            None => None,
        }
    }

    /// Notes that `object_id` is the directory for internal files, which was created in the transaction.
    pub fn add_internal_directory(&self, transaction: &mut Transaction, object_id: u64)
        requires
            object_id != INVALID_OBJECT_ID,
            self.store_object_id != INVALID_OBJECT_ID,
            old(transaction).wf(),
        ensures
            final(transaction).wf(),
            final(transaction)@ == old(transaction)@.plus(
                self.store_object_id,
                MutationV47::CreateInternalDir(object_id),
            ),
    {
        transaction.add(self.store_object_id, MutationV47::CreateInternalDir(object_id));
    }

    /// Returns the lock on what is recorded about the store, which is kept in its parent: it is taken to
    /// create the directory for internal files, or a cipher for object IDs.
    pub fn info_lock_keys(&self) -> (keys: LockKeys)
        requires
            self.parent_store is Some,
        ensures
            keys@ == seq![
                LockKey::Object {
                    store_object_id: self.parent_store->0.store_object_id,
                    object_id: self.store_object_id,
                },
            ],
    {
        let parent: u64 = match &self.parent_store {
            Some(parent) => parent.store_object_id,
            None => INVALID_OBJECT_ID,
        };
        let keys = LockKeys::Inline(LockKey::object(parent, self.store_object_id));
        assert(keys@ =~= seq![
            LockKey::Object { store_object_id: parent, object_id: self.store_object_id },
        ]);
        keys
    }

    /// If `transaction` has an impending mutation for the underlying object, returns that.
    /// Otherwise, makes a suitable mutation from `found`, the object as it is found in the tree.  The
    /// mutation is returned here rather than the item because the mutation includes the operation
    /// which has significance: inserting an object implies it's the first of its kind unlike
    /// replacing an object.
    pub fn txn_get_object_mutation(
        &self,
        transaction: &Transaction,
        object_id: u64,
        found: Option<ObjectItem>,
    ) -> (mutation: Result<ObjectStoreMutation, FxfsError>)
        ensures
            self.is_object_mutation(transaction@, object_id, found, mutation),
    {
        match transaction.get_object_mutation(self.store_object_id, ObjectKey::object(object_id)) {
            Some(mutation) => Ok(mutation.duplicate()),
            None => match found {
                Some(item) => Ok(ObjectStoreMutation { item, op: OperationV32::ReplaceOrInsert }),
                None => Err(FxfsError::Inconsistent),
            },
        }
    }

    /// `mutation` is the mutation of the object `object_id` that the transaction has or, if it has
    /// none, one that replaces what was found.
    pub open spec fn is_object_mutation(
        self,
        txn: TxnView,
        object_id: u64,
        found: Option<ObjectItem>,
        mutation: Result<ObjectStoreMutation, FxfsError>,
    ) -> bool {
        let key = ObjectKey::spec_object(object_id);
        if txn.has_object_mutation(self.store_object_id, key) {
            &&& mutation is Ok
            &&& exists|i: int| #[trigger]
                txn.is_object_mutation(i, self.store_object_id, key) && mutation->Ok_0.same(
                    txn.mutations[i].mutation->ObjectStore_0,
                )
        } else {
            mutation == (match found {
                Some(item) => Result::<ObjectStoreMutation, FxfsError>::Ok(
                    ObjectStoreMutation { item, op: OperationV32::ReplaceOrInsert },
                ),
                None => Err(FxfsError::Inconsistent),
            })
        }
    }

    /// The entry of an object in the graveyard.
    pub open spec fn graveyard_mutation(self, object_id: u64, value: ObjectValue) -> Mutation {
        MutationV47::object_mutation(
            ObjectKey::spec_graveyard_entry(
                self.store_info->0.graveyard_directory_object_id,
                object_id,
            ),
            value,
            OperationV32::ReplaceOrInsert,
        )
    }

    /// The transaction once the object has been added to the graveyard.
    pub open spec fn buried(self, txn: TxnView, object_id: u64) -> TxnView {
        txn.plus(self.store_object_id, self.graveyard_mutation(object_id, ObjectValue::Present))
    }

    /// The transaction once the object has been removed from the graveyard.
    pub open spec fn unburied(self, txn: TxnView, object_id: u64) -> TxnView {
        txn.plus(self.store_object_id, self.graveyard_mutation(object_id, ObjectValue::Deleted))
    }

    /// The transaction once the attribute has been removed from the graveyard.
    pub open spec fn attribute_unburied(
        self,
        txn: TxnView,
        object_id: u64,
        attribute_id: u64,
    ) -> TxnView {
        txn.plus(
            self.store_object_id,
            MutationV47::object_mutation(
                ObjectKey {
                    object_id: self.store_info->0.graveyard_directory_object_id,
                    data: ObjectKeyData::GraveyardAttributeEntry { object_id, attribute_id },
                },
                ObjectValue::Deleted,
                OperationV32::ReplaceOrInsert,
            ),
        )
    }

    /// Adds the specified object to the graveyard.
    pub fn add_to_graveyard(&self, transaction: &mut Transaction, object_id: u64)
        requires
            self.store_info is Some,
            self.store_info->0.graveyard_directory_object_id != INVALID_OBJECT_ID,
            self.store_object_id != INVALID_OBJECT_ID,
            old(transaction).wf(),
        ensures
            final(transaction).wf(),
            final(transaction)@ == self.buried(old(transaction)@, object_id),
            final(transaction)@ == old(transaction)@.plus(
                self.store_object_id,
                self.graveyard_mutation(object_id, ObjectValue::Present),
            ),
    {
        let graveyard_id: u64 = self.graveyard_directory_object_id();
        transaction.add(
            self.store_object_id,
            MutationV47::replace_or_insert_object(
                ObjectKey::graveyard_entry(graveyard_id, object_id),
                ObjectValue::Present,
            ),
        );
    }

    /// Removes the specified object from the graveyard.  NB: Care should be taken when calling
    /// this because graveyard entries are used for purging deleted files *and* for trimming
    /// extents.  For example, consider the following sequence:
    ///
    ///     1. Add Trim graveyard entry.
    ///     2. Replace with Present graveyard entry (see above).
    ///     3. Remove graveyard entry.
    ///
    /// If the desire in #3 is just to cancel the effect of the Present entry, then #3 should
    /// actually be:
    ///
    ///     3. Replace with Trim graveyard entry.
    pub fn remove_from_graveyard(&self, transaction: &mut Transaction, object_id: u64)
        requires
            self.store_info is Some,
            self.store_object_id != INVALID_OBJECT_ID,
            old(transaction).wf(),
        ensures
            final(transaction).wf(),
            final(transaction)@ == self.unburied(old(transaction)@, object_id),
            final(transaction)@ == old(transaction)@.plus(
                self.store_object_id,
                self.graveyard_mutation(object_id, ObjectValue::Deleted),
            ),
    {
        transaction.add(
            self.store_object_id,
            MutationV47::replace_or_insert_object(
                ObjectKey::graveyard_entry(self.graveyard_directory_object_id(), object_id),
                ObjectValue::Deleted,
            ),
        );
    }

    /// Removes the specified attribute from the graveyard. Unlike object graveyard entries,
    /// attribute graveyard entries only have one functionality (i.e. to purge deleted attributes)
    /// so the caller does not need to be concerned about replacing the graveyard attribute entry
    /// with its prior state when cancelling it. See comment on `remove_from_graveyard()`.
    pub fn remove_attribute_from_graveyard(
        &self,
        transaction: &mut Transaction,
        object_id: u64,
        attribute_id: u64,
    )
        requires
            self.store_info is Some,
            self.store_object_id != INVALID_OBJECT_ID,
            old(transaction).wf(),
        ensures
            final(transaction).wf(),
            final(transaction)@ == self.attribute_unburied(
                old(transaction)@,
                object_id,
                attribute_id,
            ),
            final(transaction)@ == old(transaction)@.plus(
                self.store_object_id,
                MutationV47::object_mutation(
                    (ObjectKey {
                        object_id: self.store_info->0.graveyard_directory_object_id,
                        data: ObjectKeyData::GraveyardAttributeEntry { object_id, attribute_id },
                    }),
                    ObjectValue::Deleted,
                    OperationV32::ReplaceOrInsert,
                ),
            ),
    {
        transaction.add(
            self.store_object_id,
            MutationV47::replace_or_insert_object(
                ObjectKey::graveyard_attribute_entry(
                    self.graveyard_directory_object_id(),
                    object_id,
                    attribute_id,
                ),
                ObjectValue::Deleted,
            ),
        );
    }

    /// The transaction holds the lock that changing the object `object_id` calls for, if its mutation is
    /// one that `changes` speaks of.
    pub open spec fn can_change(
        self,
        txn: TxnView,
        object_id: u64,
        found: Option<ObjectItem>,
        changes: spec_fn(ObjectStoreMutation) -> bool,
    ) -> bool {
        forall|mutation: ObjectStoreMutation|
            #![trigger self.is_object_mutation(txn, object_id, found, Ok(mutation))]
            self.is_object_mutation(txn, object_id, found, Ok(mutation)) && changes(mutation)
                ==> txn.missing_lock(self.store_object_id, MutationV47::ObjectStore(mutation)) is None
    }

    /// What adjusting the reference count of an object by `delta` does to a transaction, given the
    /// mutation for the object.
    pub open spec fn refs_adjusted(
        self,
        txn: TxnView,
        object_id: u64,
        delta: i64,
        mutation: ObjectStoreMutation,
    ) -> (TxnView, Result<bool, StoreError>) {
        match refs_of(mutation.item.value) {
            None => (txn, Err(StoreError::Fxfs(FxfsError::NotFile))),
            Some(refs) => {
                let sum = refs + delta;
                if sum < 0 || sum > u64::MAX {
                    (txn, Err(StoreError::RefsOverflow))
                } else if sum == 0 {
                    let buried = txn.plus(
                        self.store_object_id,
                        self.graveyard_mutation(object_id, ObjectValue::Present),
                    );
                    // The reference count is kept at one for objects in the graveyard.
                    if delta == -1 {
                        (buried, Ok(true))
                    } else {
                        (
                            buried.plus(
                                self.store_object_id,
                                MutationV47::ObjectStore(with_refs(mutation, 1)),
                            ),
                            Ok(true),
                        )
                    }
                } else {
                    (
                        txn.plus(
                            self.store_object_id,
                            MutationV47::ObjectStore(with_refs(mutation, sum as u64)),
                        ),
                        Ok(false),
                    )
                }
            },
        }
    }

    /// Adjusting the reference count by `delta` changes the object.
    pub open spec fn changes_refs(delta: i64) -> spec_fn(ObjectStoreMutation) -> bool {
        |mutation: ObjectStoreMutation|
            match refs_of(mutation.item.value) {
                Some(refs) => 0 <= refs + delta <= u64::MAX && (refs + delta != 0 || delta != -1),
                None => false,
            }
    }

    /// Returns whether `adjust_refs` changes the object, so that it has to be locked: an object whose last
    /// reference goes is left as it is.
    pub fn refs_change(mutation: &ObjectStoreMutation, delta: i64) -> (changes: bool)
        ensures
            changes == Self::changes_refs(delta)(*mutation),
    {
        match get_refs(&mutation.item.value) {
            Some(refs) => match refs.checked_add_signed(delta) {
                Some(refs) => refs != 0 || delta != -1,
                None => false,
            },
            None => false,
        }
    }

    /// Adjusts the reference count for a given object.  If the reference count reaches zero, the
    /// object is moved into the graveyard and true is returned.  `found` is the object as it is found
    /// in the tree.
    pub fn adjust_refs(
        &self,
        transaction: &mut Transaction,
        object_id: u64,
        delta: i64,
        found: Option<ObjectItem>,
    ) -> (dropped: Result<bool, StoreError>)
        requires
            self.store_info is Some,
            self.store_info->0.graveyard_directory_object_id != INVALID_OBJECT_ID,
            self.store_object_id != INVALID_OBJECT_ID,
            found matches Some(item) ==> item.key.data is Object,
            old(transaction).wf(),
            self.can_change(old(transaction)@, object_id, found, Self::changes_refs(delta)),
        ensures
            final(transaction).wf(),
            exists|mutation: Result<ObjectStoreMutation, FxfsError>| #[trigger]
                self.is_object_mutation(old(transaction)@, object_id, found, mutation) && (
                final(transaction)@,
                dropped,
            ) == (match mutation {
                Ok(mutation) => self.refs_adjusted(old(transaction)@, object_id, delta, mutation),
                Err(error) => (old(transaction)@, Err(StoreError::Fxfs(error))),
            }),
    {
        match self.txn_get_object_mutation(transaction, object_id, found) {
            Ok(mutation) => self.adjust_mutation_refs(transaction, object_id, delta, mutation),
            Err(error) => Err(StoreError::Fxfs(error)),
        }
    }

    fn adjust_mutation_refs(
        &self,
        transaction: &mut Transaction,
        object_id: u64,
        delta: i64,
        mutation: ObjectStoreMutation,
    ) -> (dropped: Result<bool, StoreError>)
        requires
            self.store_info is Some,
            self.store_info->0.graveyard_directory_object_id != INVALID_OBJECT_ID,
            self.store_object_id != INVALID_OBJECT_ID,
            mutation.item.key.data is Object,
            old(transaction).wf(),
            Self::changes_refs(delta)(mutation) ==> old(transaction)@.missing_lock(
                self.store_object_id,
                MutationV47::ObjectStore(mutation),
            ) is None,
        ensures
            final(transaction).wf(),
            (final(transaction)@, dropped) == self.refs_adjusted(
                old(transaction)@,
                object_id,
                delta,
                mutation,
            ),
    {
        let refs: u64 = match get_refs(&mutation.item.value) {
            Some(refs) => refs,
            None => {
                return Err(StoreError::Fxfs(FxfsError::NotFile));
            },
        };
        let refs: u64 = match refs.checked_add_signed(delta) {
            Some(refs) => refs,
            None => {
                return Err(StoreError::RefsOverflow);
            },
        };
        if refs == 0 {
            self.add_to_graveyard(transaction, object_id);
            // We might still need to adjust the reference count if delta was something other than
            // -1.
            if delta != -1 {
                transaction.add(
                    self.store_object_id,
                    MutationV47::ObjectStore(set_refs(mutation, 1)),
                );
            }
            // Otherwise, we don't commit the mutation as we want to keep reference count as 1 for
            // objects in graveyard.

            Ok(true)
        } else {
            transaction.add(
                self.store_object_id,
                MutationV47::ObjectStore(set_refs(mutation, refs)),
            );
            Ok(false)
        }
    }

    /// What changing attributes of an object does to a transaction, given the mutation for the object.
    pub open spec fn attributes_updated(
        self,
        txn: TxnView,
        node_attributes: Option<MutableNodeAttributes>,
        change_time: Option<Timestamp>,
        mutation: ObjectStoreMutation,
    ) -> (TxnView, Result<(), FxfsError>) {
        match mutation.item.value {
            ObjectValue::Object { attributes, .. } => (
                txn.plus(
                    self.store_object_id,
                    MutationV47::ObjectStore(
                        with_attributes(
                            mutation,
                            attributes_after(attributes, node_attributes, change_time),
                        ),
                    ),
                ),
                Ok(()),
            ),
            _ => (txn, Err(FxfsError::Inconsistent)),
        }
    }

    /// `after` is the transaction, and `updated` the result, of changing attributes of an object.
    pub open spec fn is_attributes_update(
        self,
        txn: TxnView,
        object_id: u64,
        node_attributes: Option<MutableNodeAttributes>,
        change_time: Option<Timestamp>,
        found: Option<ObjectItem>,
        after: TxnView,
        updated: Result<(), FxfsError>,
    ) -> bool {
        if spec_no_change(node_attributes, change_time) {
            (after, updated) == (txn, Result::<(), FxfsError>::Ok(()))
        } else {
            exists|mutation: Result<ObjectStoreMutation, FxfsError>| #[trigger]
                self.is_object_mutation(txn, object_id, found, mutation) && (after, updated) == (
                match mutation {
                    Ok(mutation) => self.attributes_updated(
                        txn,
                        node_attributes,
                        change_time,
                        mutation,
                    ),
                    Err(error) => (txn, Err(error)),
                })
        }
    }

    /// The mutation is one of an object, whose attributes can be changed.
    pub open spec fn has_attributes() -> spec_fn(ObjectStoreMutation) -> bool {
        |mutation: ObjectStoreMutation| mutation.item.value is Object
    }

    /// Changes attributes of the object `object_id`.  `found` is the object as it is found in the
    /// tree.
    pub fn update_attributes(
        &self,
        transaction: &mut Transaction,
        object_id: u64,
        node_attributes: &Option<MutableNodeAttributes>,
        change_time: &Option<Timestamp>,
        found: Option<ObjectItem>,
    ) -> (updated: Result<(), FxfsError>)
        requires
            self.store_object_id != INVALID_OBJECT_ID,
            found matches Some(item) ==> item.key.data is Object,
            old(transaction).wf(),
            !spec_no_change(*node_attributes, *change_time) ==> self.can_change(
                old(transaction)@,
                object_id,
                found,
                Self::has_attributes(),
            ),
        ensures
            final(transaction).wf(),
            self.is_attributes_update(
                old(transaction)@,
                object_id,
                *node_attributes,
                *change_time,
                found,
                final(transaction)@,
                updated,
            ),
    {
        if no_change(node_attributes, change_time) {
            return Ok(());
        }
        let mutation = match self.txn_get_object_mutation(transaction, object_id, found) {
            Ok(mutation) => mutation,
            Err(error) => {
                return Err(error);
            },
        };
        let mut attributes = match &mutation.item.value {
            ObjectValue::Object { attributes, .. } => *attributes,
            _ => {
                return Err(FxfsError::Inconsistent);
            },
        };
        apply_attributes(&mut attributes, node_attributes, change_time);
        transaction.add(
            self.store_object_id,
            MutationV47::ObjectStore(set_attributes(mutation, attributes)),
        );
        Ok(())
    }

    /// `after` is the transaction, `access_time_after` the access time and `updated` the result of updating the
    /// access time of an object.
    pub open spec fn is_access_time_update(
        self,
        txn: TxnView,
        object_id: u64,
        access_time: Timestamp,
        modification_time: Timestamp,
        change_time: Timestamp,
        now: Timestamp,
        found: Option<ObjectItem>,
        after: TxnView,
        access_time_after: Timestamp,
        updated: Result<bool, FxfsError>,
    ) -> bool {
        if spec_should_update_access_time(access_time, modification_time, change_time, now) {
            &&& self.is_attributes_update(
                txn,
                object_id,
                Some(access_time_change(now)),
                None,
                found,
                after,
                match updated {
                    Ok(_) => Ok(()),
                    Err(error) => Err(error),
                },
            )
            &&& updated matches Ok(commit) ==> commit && access_time_after == now
            &&& updated is Err ==> access_time_after == access_time
        } else {
            &&& updated == Result::<bool, FxfsError>::Ok(false)
            &&& after == txn
            &&& access_time_after == access_time
        }
    }

    /// Updates the access time of an object to `now` if `should_update_access_time` says so, in the
    /// transaction and in `access_time`.  Returns whether there is something to commit.  `found` is the
    /// object as it is found in the tree.
    pub fn update_access_time(
        &self,
        transaction: &mut Transaction,
        object_id: u64,
        access_time: &mut Timestamp,
        modification_time: Timestamp,
        change_time: Timestamp,
        now: Timestamp,
        found: Option<ObjectItem>,
    ) -> (updated: Result<bool, FxfsError>)
        requires
            now.nanos >= DAY_NANOS,
            self.store_object_id != INVALID_OBJECT_ID,
            found matches Some(item) ==> item.key.data is Object,
            old(transaction).wf(),
            spec_should_update_access_time(*old(access_time), modification_time, change_time, now)
                ==> self.can_change(old(transaction)@, object_id, found, Self::has_attributes()),
        ensures
            final(transaction).wf(),
            self.is_access_time_update(
                old(transaction)@,
                object_id,
                *old(access_time),
                modification_time,
                change_time,
                now,
                found,
                final(transaction)@,
                *final(access_time),
                updated,
            ),
            if spec_should_update_access_time(
                *old(access_time),
                modification_time,
                change_time,
                now,
            ) {
                &&& self.is_attributes_update(
                    old(transaction)@,
                    object_id,
                    Some(access_time_change(now)),
                    None,
                    found,
                    final(transaction)@,
                    match updated {
                        Ok(_) => Ok(()),
                        Err(error) => Err(error),
                    },
                )
                &&& updated matches Ok(commit) ==> commit && *final(access_time) == now
                &&& updated is Err ==> *final(access_time) == *old(access_time)
            } else {
                &&& updated == Result::<bool, FxfsError>::Ok(false)
                &&& final(transaction)@ == old(transaction)@
                &&& *final(access_time) == *old(access_time)
            },
    {
        if !should_update_access_time(*access_time, modification_time, change_time, now) {
            return Ok(false);
        }
        let change = MutableNodeAttributes {
            creation_time: None,
            modification_time: None,
            access_time: Some(now.as_nanos()),
            mode: None,
            uid: None,
            gid: None,
            rdev: None,
            others: false,
        };
        match self.update_attributes(transaction, object_id, &Some(change), &None, found) {
            Ok(()) => {
                *access_time = now;
                Ok(true)
            },
            Err(error) => Err(error),
        }
    }

    /// The transaction once the records of a new file have been added to it.
    pub open spec fn with_new_object(
        self,
        txn: TxnView,
        object_id: u64,
        now: Timestamp,
        keys: Option<ObjectValue>,
    ) -> TxnView {
        let txn = txn.plus(
            self.store_object_id,
            MutationV47::object_mutation(
                ObjectKey::spec_object(object_id),
                new_file(now),
                OperationV32::Insert,
            ),
        );
        let txn = match keys {
            Some(keys) => txn.plus(
                self.store_object_id,
                MutationV47::object_mutation(
                    ObjectKey { object_id, data: ObjectKeyData::Keys },
                    keys,
                    OperationV32::Insert,
                ),
            ),
            None => txn,
        };
        txn.plus(
            self.store_object_id,
            MutationV47::object_mutation(
                ObjectKey {
                    object_id,
                    data: ObjectKeyData::Attribute(
                        DEFAULT_DATA_ATTRIBUTE_ID,
                        AttributeKey::Attribute,
                    ),
                },
                ObjectValue::Attribute { size: 0, has_overwrite_extents: false },
                OperationV32::Insert,
            ),
        )
    }

    /// `handle` is for a file that was created in the transaction, and `after` is the transaction after
    /// that.
    pub open spec fn is_created(
        self,
        txn: TxnView,
        object_id: u64,
        now: Timestamp,
        encryption_options: Option<ObjectEncryptionOptions>,
        after: TxnView,
        handle: OpenedObject,
    ) -> bool {
        &&& exists|keys: Option<ObjectValue>| #[trigger]
            is_key_record(keys, encryption_options) && after == self.with_new_object(
                txn,
                object_id,
                now,
                keys,
            )
        &&& handle.object_id == object_id
        &&& handle.permanent_keys == (encryption_options matches Some(options) && options.permanent)
        &&& handle.size == 0
        &&& handle.overwrite_ranges@ == Seq::<(u64, u64)>::empty()
        &&& handle.fsverity is None
    }

    /// Creates an empty file with the given ID.
    ///
    /// Unencrypted objects may not be created in an encrypted store.  The converse is OK.
    pub fn create_object_with_id(
        &self,
        transaction: &mut Transaction,
        object_id: u64,
        now: Timestamp,
        encryption_options: Option<ObjectEncryptionOptions>,
    ) -> (handle: OpenedObject)
        requires
            object_id != INVALID_OBJECT_ID,
            self.store_object_id != INVALID_OBJECT_ID,
            self.lock_state == LockState::Unlocked || self.lock_state == LockState::UnlockedReadOnly
                ==> encryption_options is Some,
            old(transaction).wf(),
        ensures
            final(transaction).wf(),
            self.is_created(
                old(transaction)@,
                object_id,
                now,
                encryption_options,
                final(transaction)@,
                handle,
            ),
    {
        let ghost mut keys: Option<ObjectValue> = None;
        let attributes = ObjectAttributes {
            creation_time: now,
            modification_time: now,
            project_id: 0,
            posix_attributes: None,
            allocated_size: 0,
            access_time: now,
            change_time: now,
        };
        transaction.add(
            self.store_object_id,
            MutationV47::insert_object(
                ObjectKey::object(object_id),
                ObjectValue::Object { kind: ObjectKind::File { refs: 1 }, attributes },
            ),
        );
        let mut permanent_keys = false;
        if let Some(options) = encryption_options {
            permanent_keys = options.permanent;
            let value = ObjectValue::Keys(vec![(options.key_id, options.key)]);
            proof {
                keys = Some(value);
                assert(value->Keys_0@ =~= seq![(options.key_id, options.key)]);
            }
            transaction.add(
                self.store_object_id,
                MutationV47::insert_object(ObjectKey::keys(object_id), value),
            );
        }
        transaction.add(
            self.store_object_id,
            MutationV47::insert_object(
                ObjectKey::attribute(
                    object_id,
                    DEFAULT_DATA_ATTRIBUTE_ID,
                    AttributeKey::Attribute,
                ),
                // This is a new object so nothing has pre-allocated overwrite extents yet.
                ObjectValue::Attribute { size: 0, has_overwrite_extents: false },
            ),
        );
        assert(is_key_record(keys, encryption_options));
        OpenedObject {
            object_id,
            permanent_keys,
            size: 0,
            overwrite_ranges: Vec::new(),
            fsverity: None,
        }
    }

    /// Creates an empty file with the given ID, which is that of a new object.  `key` is a new key that
    /// the crypt service of the store made for the object, if the store is encrypted; it is wrapped with
    /// the key `wrapping_key_id` if that is set, and with the data key of the volume otherwise.
    pub fn create_object(
        &self,
        transaction: &mut Transaction,
        object_id: u64,
        now: Timestamp,
        wrapping_key_id: Option<u128>,
        key: Option<FxfsKey>,
    ) -> (handle: OpenedObject)
        requires
            object_id != INVALID_OBJECT_ID,
            self.store_object_id != INVALID_OBJECT_ID,
            self.lock_state != LockState::Locked,
            self.lock_state != LockState::Unknown,
            key is Some == (self.lock_state == LockState::Unlocked || self.lock_state
                == LockState::UnlockedReadOnly),
            old(transaction).wf(),
        ensures
            final(transaction).wf(),
            self.is_created(
                old(transaction)@,
                object_id,
                now,
                new_object_encryption(wrapping_key_id, key),
                final(transaction)@,
                handle,
            ),
    {
        let encryption_options = match key {
            Some(key) => Some(
                ObjectEncryptionOptions {
                    permanent: false,
                    key_id: new_object_key_id(wrapping_key_id),
                    key,
                },
            ),
            None => None,
        };
        self.create_object_with_id(transaction, object_id, now, encryption_options)
    }

    /// Creates an empty file using an explicitly provided key.
    ///
    /// There are some cases where an encrypted object needs to be created in an unencrypted store.
    /// For example, when layer files for a child store are created in the root store, but they must
    /// be encrypted using the child store's keys.  This method exists for that purpose.
    pub fn create_object_with_key(
        &self,
        transaction: &mut Transaction,
        object_id: u64,
        now: Timestamp,
        key: FxfsKey,
    ) -> (handle: OpenedObject)
        requires
            object_id != INVALID_OBJECT_ID,
            self.store_object_id != INVALID_OBJECT_ID,
            old(transaction).wf(),
        ensures
            final(transaction).wf(),
            self.is_created(
                old(transaction)@,
                object_id,
                now,
                Some(
                    ObjectEncryptionOptions { permanent: true, key_id: VOLUME_DATA_KEY_ID, key },
                ),
                final(transaction)@,
                handle,
            ),
    {
        self.create_object_with_id(
            transaction,
            object_id,
            now,
            Some(ObjectEncryptionOptions { permanent: true, key_id: VOLUME_DATA_KEY_ID, key }),
        )
    }
}

/// The record holds the one key that an object is created with, and there is none if there is no key.
pub open spec fn is_key_record(
    record: Option<ObjectValue>,
    encryption_options: Option<ObjectEncryptionOptions>,
) -> bool {
    match encryption_options {
        Some(options) => record matches Some(ObjectValue::Keys(keys)) && keys@ == seq![
            (options.key_id, options.key),
        ],
        None => record is None,
    }
}

/// The record of a new file.
pub open spec fn new_file(now: Timestamp) -> ObjectValue {
    ObjectValue::Object {
        kind: ObjectKind::File { refs: 1 },
        attributes: ObjectAttributes {
            creation_time: now,
            modification_time: now,
            project_id: 0,
            posix_attributes: None,
            allocated_size: 0,
            access_time: now,
            change_time: now,
        },
    }
}

/// How a new object is encrypted with `key`, if it has one.
pub open spec fn new_object_encryption(
    wrapping_key_id: Option<u128>,
    key: Option<FxfsKey>,
) -> Option<ObjectEncryptionOptions> {
    match key {
        Some(key) => Some(
            ObjectEncryptionOptions {
                permanent: false,
                key_id: if wrapping_key_id is Some {
                    FSCRYPT_KEY_ID
                } else {
                    VOLUME_DATA_KEY_ID
                },
                key,
            },
        ),
        None => None,
    }
}

/// Returns the ID of the key for a new object of an encrypted store: if its key is wrapped with a
/// specific key it is that of an encrypted directory or file, and otherwise that of the volume.
pub fn new_object_key_id(wrapping_key_id: Option<u128>) -> (key_id: u64)
    ensures
        key_id == (if wrapping_key_id is Some {
            FSCRYPT_KEY_ID
        } else {
            VOLUME_DATA_KEY_ID
        }),
{
    if wrapping_key_id.is_some() {
        FSCRYPT_KEY_ID
    } else {
        VOLUME_DATA_KEY_ID
    }
}

/// The reference count of a file or a symbolic link.
pub open spec fn refs_of(value: ObjectValue) -> Option<u64> {
    match value {
        ObjectValue::Object { kind: ObjectKind::File { refs }, .. } => Some(refs),
        ObjectValue::Object { kind: ObjectKind::Symlink { refs, .. }, .. } => Some(refs),
        _ => None,
    }
}

fn get_refs(value: &ObjectValue) -> (refs: Option<u64>)
    ensures
        refs == refs_of(*value),
{
    match value {
        ObjectValue::Object { kind: ObjectKind::File { refs }, .. } => Some(*refs),
        ObjectValue::Object { kind: ObjectKind::Symlink { refs, .. }, .. } => Some(*refs),
        _ => None,
    }
}

/// `mutation`, of a file or a symbolic link, with another reference count.
pub open spec fn with_refs(mutation: ObjectStoreMutation, refs: u64) -> ObjectStoreMutation {
    let kind = match mutation.item.value->Object_kind {
        ObjectKind::Symlink { link, .. } => ObjectKind::Symlink { refs, link },
        _ => ObjectKind::File { refs },
    };
    ObjectStoreMutation {
        item: ObjectItem {
            value: ObjectValue::Object {
                kind,
                attributes: mutation.item.value->Object_attributes,
            },
            ..mutation.item
        },
        ..mutation
    }
}

fn set_refs(mutation: ObjectStoreMutation, refs: u64) -> (changed: ObjectStoreMutation)
    requires
        refs_of(mutation.item.value) is Some,
    ensures
        changed == with_refs(mutation, refs),
{
    let op = mutation.op;
    let ObjectItem { key, value, sequence } = mutation.item;
    let value = match value {
        ObjectValue::Object { kind: ObjectKind::Symlink { link, .. }, attributes } => {
            ObjectValue::Object { kind: ObjectKind::Symlink { refs, link }, attributes }
        },
        ObjectValue::Object { attributes, .. } => ObjectValue::Object {
            kind: ObjectKind::File { refs },
            attributes,
        },
        value => value,
    };
    ObjectStoreMutation { item: ObjectItem { key, value, sequence }, op }
}

/// An object that is added to the graveyard has an entry there, and once it is removed again the entry is
/// deleted.  The entries of other objects, and of attributes, stay as they are.
pub proof fn lemma_graveyard_keeps_an_entry_for_each_object(
    store: ObjectStore,
    txn: TxnView,
    object_id: u64,
    other: ObjectStoreMutation,
)
    requires
        in_order(txn.mutations),
    ensures
        ({
            let graveyard = store.store_info->0.graveyard_directory_object_id;
            let buried = store.buried(txn, object_id);
            let unburied = store.unburied(buried, object_id);
            let is_entry = |m: ObjectStoreMutation|
                m.item.key.object_id == graveyard && m.item.key.data == (ObjectKeyData::GraveyardEntry {
                    object_id,
                });
            &&& exists|m: ObjectStoreMutation| #[trigger]
                buried.holds(store.store_object_id, MutationV47::ObjectStore(m)) && is_entry(m)
                    && m.item.value is Present && m.op == OperationV32::ReplaceOrInsert
            &&& exists|m: ObjectStoreMutation| #[trigger]
                unburied.holds(store.store_object_id, MutationV47::ObjectStore(m)) && is_entry(m)
                    && m.item.value is Deleted && m.op == OperationV32::ReplaceOrInsert
            &&& forall|m: ObjectStoreMutation| #[trigger]
                unburied.holds(store.store_object_id, MutationV47::ObjectStore(m)) && is_entry(m)
                    ==> m.item.value is Deleted
            &&& other.item.key.object_id != graveyard || (other.item.key.data matches
                ObjectKeyData::GraveyardEntry { object_id: id } && id != object_id) || !(
            other.item.key.data is GraveyardEntry) ==> (buried.holds(
                store.store_object_id,
                MutationV47::ObjectStore(other),
            ) <==> txn.holds(store.store_object_id, MutationV47::ObjectStore(other))) && (
            unburied.holds(store.store_object_id, MutationV47::ObjectStore(other)) <==> txn.holds(
                store.store_object_id,
                MutationV47::ObjectStore(other),
            ))
        }),
{
    let buried = store.buried(txn, object_id);
    let unburied = store.unburied(buried, object_id);
    let entry = store.graveyard_mutation(object_id, ObjectValue::Present);
    let removal = store.graveyard_mutation(object_id, ObjectValue::Deleted);
    lemma_added_is_held(txn, store.store_object_id, entry);
    lemma_added_is_held(buried, store.store_object_id, removal);
    assert(buried.holds(store.store_object_id, MutationV47::ObjectStore(entry->ObjectStore_0)));
    assert(unburied.holds(store.store_object_id, MutationV47::ObjectStore(removal->ObjectStore_0)));
}

/// Removing an attribute from the graveyard deletes the entry of that attribute alone.
pub proof fn lemma_graveyard_keeps_an_entry_for_each_attribute(
    store: ObjectStore,
    txn: TxnView,
    object_id: u64,
    attribute_id: u64,
    other: ObjectStoreMutation,
)
    requires
        in_order(txn.mutations),
    ensures
        ({
            let graveyard = store.store_info->0.graveyard_directory_object_id;
            let after = store.attribute_unburied(txn, object_id, attribute_id);
            let data = ObjectKeyData::GraveyardAttributeEntry { object_id, attribute_id };
            &&& exists|m: ObjectStoreMutation| #[trigger]
                after.holds(store.store_object_id, MutationV47::ObjectStore(m)) && m.item.key.object_id
                    == graveyard && m.item.key.data == data && m.item.value is Deleted && m.op
                    == OperationV32::ReplaceOrInsert
            &&& other.item.key.object_id != graveyard || !other.item.key.data.same(data) ==> (
            after.holds(store.store_object_id, MutationV47::ObjectStore(other)) <==> txn.holds(
                store.store_object_id,
                MutationV47::ObjectStore(other),
            ))
        }),
{
    let data = ObjectKeyData::GraveyardAttributeEntry { object_id, attribute_id };
    let removal = MutationV47::object_mutation(
        ObjectKey { object_id: store.store_info->0.graveyard_directory_object_id, data },
        ObjectValue::Deleted,
        OperationV32::ReplaceOrInsert,
    );
    lemma_added_is_held(txn, store.store_object_id, removal);
    assert(store.attribute_unburied(txn, object_id, attribute_id).holds(
        store.store_object_id,
        MutationV47::ObjectStore(removal->ObjectStore_0),
    ));
}

/// The value is that of a file, or of a symbolic link, with `refs` references.
pub open spec fn has_refs(value: ObjectValue, refs: int) -> bool {
    value matches ObjectValue::Object { kind, .. } && match kind {
        ObjectKind::File { refs: count } => count == refs,
        ObjectKind::Symlink { refs: count, .. } => count == refs,
        _ => false,
    }
}

/// Giving up the last reference to an object, and only that, moves it to the graveyard.  While references
/// are left, or come, only the count in the record of the object changes, by as many; the graveyard is left
/// alone, and so is everything else.
pub proof fn lemma_object_without_references_is_buried(
    store: ObjectStore,
    txn: TxnView,
    object_id: u64,
    delta: i64,
    mutation: ObjectStoreMutation,
    refs: u64,
    other_store: u64,
    other: Mutation,
)
    requires
        in_order(txn.mutations),
        mutation.item.key.object_id == object_id,
        mutation.item.key.data is Object,
        has_refs(mutation.item.value, refs as int),
    ensures
        ({
            let (after, dropped) = store.refs_adjusted(txn, object_id, delta, mutation);
            let graveyard = store.store_info->0.graveyard_directory_object_id;
            let id = store.store_object_id;
            let is_entry = |m: Mutation|
                m matches MutationV47::ObjectStore(m) && m.item.key.object_id == graveyard
                    && m.item.key.data == (ObjectKeyData::GraveyardEntry { object_id });
            let is_record = |m: Mutation|
                m matches MutationV47::ObjectStore(m) && m.item.key.object_id == object_id
                    && m.item.key.data is Object;
            &&& dropped == Result::<bool, StoreError>::Ok(true) <==> refs + delta == 0
            &&& dropped == Result::<bool, StoreError>::Ok(false) <==> 0 < refs + delta <= u64::MAX
            &&& dropped is Err <==> refs + delta < 0 || refs + delta > u64::MAX
            &&& dropped matches Err(error) ==> error == StoreError::RefsOverflow && after == txn
            // The object is buried exactly if nothing refers to it.
            &&& refs + delta == 0 ==> exists|m: Mutation| #[trigger]
                after.holds(id, m) && is_entry(m) && m->ObjectStore_0.item.value is Present
                    && m->ObjectStore_0.op == OperationV32::ReplaceOrInsert
            &&& refs + delta != 0 && is_entry(other) ==> (after.holds(id, other) <==> txn.holds(id, other))
            // What has references left has that many.
            &&& 0 < refs + delta <= u64::MAX ==> exists|m: Mutation| #[trigger]
                after.holds(id, m) && is_record(m) && has_refs(
                    m->ObjectStore_0.item.value,
                    refs + delta,
                ) && m->ObjectStore_0.item.value->Object_attributes
                    == mutation.item.value->Object_attributes && m->ObjectStore_0.op == mutation.op
            // What is in the graveyard keeps one.
            &&& refs + delta == 0 && delta != -1 ==> exists|m: Mutation| #[trigger]
                after.holds(id, m) && is_record(m) && has_refs(m->ObjectStore_0.item.value, 1)
            &&& refs + delta == 0 && delta == -1 && is_record(other) ==> (after.holds(id, other)
                <==> txn.holds(id, other))
            &&& other_store != id || (!is_record(other) && !is_entry(other)) ==> (after.holds(
                other_store,
                other,
            ) <==> txn.holds(other_store, other))
        }),
{
    let (after, dropped) = store.refs_adjusted(txn, object_id, delta, mutation);
    let id = store.store_object_id;
    let entry = store.graveyard_mutation(object_id, ObjectValue::Present);
    let sum = refs + delta;
    assert(refs_of(mutation.item.value) == Some(refs));
    if 0 <= sum <= u64::MAX {
        let count = if sum == 0 {
            1
        } else {
            sum as u64
        };
        let record = MutationV47::ObjectStore(with_refs(mutation, count));
        assert(!entry.matches(record));
        if sum == 0 {
            lemma_added_is_held(txn, id, entry);
            let buried = txn.plus(id, entry);
            assert(buried.holds(id, entry));
            if delta != -1 {
                lemma_added_is_held(buried, id, record);
                assert(after.holds(id, record));
                assert(after.holds(id, entry));
            }
        } else {
            lemma_added_is_held(txn, id, record);
            assert(after.holds(id, record));
            assert(has_refs(record->ObjectStore_0.item.value, sum));
        }
    }
}

/// Only files and symbolic links count their references; trying it on anything else changes nothing.
pub proof fn lemma_only_files_and_links_have_references(
    store: ObjectStore,
    txn: TxnView,
    object_id: u64,
    delta: i64,
    mutation: ObjectStoreMutation,
)
    requires
        mutation.item.value matches ObjectValue::Object { kind, .. } ==> !(kind is File) && !(
        kind is Symlink),
    ensures
        store.refs_adjusted(txn, object_id, delta, mutation) == (
            txn,
            Result::<bool, StoreError>::Err(StoreError::Fxfs(FxfsError::NotFile)),
        ),
        !ObjectStore::changes_refs(delta)(mutation),
{
}

/// Adjusting references says beforehand whether it changes the record of the object: not if it fails, and not if
/// the last reference goes.
pub proof fn lemma_refs_change_is_announced(delta: i64, mutation: ObjectStoreMutation, refs: u64)
    requires
        has_refs(mutation.item.value, refs as int),
    ensures
        refs + delta < 0 || refs + delta > u64::MAX ==> !ObjectStore::changes_refs(delta)(mutation),
        refs == 1 && delta == -1 ==> !ObjectStore::changes_refs(delta)(mutation),
        0 < refs + delta <= u64::MAX ==> ObjectStore::changes_refs(delta)(mutation),
        refs + delta == 0 && delta != -1 ==> ObjectStore::changes_refs(delta)(mutation),
{
}

/// An object with another reference count is otherwise the same: a link still points to where it did.
pub proof fn lemma_reference_count_changes_alone(mutation: ObjectStoreMutation, refs: u64)
    requires
        refs_of(mutation.item.value) is Some,
    ensures
        ({
            let changed = with_refs(mutation, refs);
            &&& has_refs(changed.item.value, refs as int)
            &&& changed.item.value->Object_attributes == mutation.item.value->Object_attributes
            &&& mutation.item.value->Object_kind is File <==> changed.item.value->Object_kind is File
            &&& mutation.item.value->Object_kind matches ObjectKind::Symlink { link, .. } ==> (
            changed.item.value->Object_kind matches ObjectKind::Symlink { link: target, .. } && target
                == link)
            &&& changed.item.key == mutation.item.key
            &&& changed.item.sequence == mutation.item.sequence
            &&& changed.op == mutation.op
        }),
{
}

/// The change that a transaction has for an object already is the one to go on from.  Otherwise it is what was
/// found in the tree, which is to be replaced; if nothing was found, the store is inconsistent.
pub proof fn lemma_pending_changes_come_first(
    store: ObjectStore,
    txn: TxnView,
    object_id: u64,
    found: Option<ObjectItem>,
    mutation: Result<ObjectStoreMutation, FxfsError>,
)
    requires
        in_order(txn.mutations),
        store.is_object_mutation(txn, object_id, found, mutation),
    ensures
        forall|pending: ObjectStoreMutation|
            #![trigger txn.holds(store.store_object_id, MutationV47::ObjectStore(pending))]
            txn.holds(store.store_object_id, MutationV47::ObjectStore(pending))
                && pending.item.key.object_id == object_id && pending.item.key.data is Object ==> (
            mutation matches Ok(mutation) && mutation.same(pending)),
        (forall|pending: ObjectStoreMutation| #[trigger]
            txn.holds(store.store_object_id, MutationV47::ObjectStore(pending)) ==> !(
            pending.item.key.object_id == object_id && pending.item.key.data is Object)) ==> {
            &&& found matches Some(item) ==> (mutation matches Ok(mutation) && mutation.item == item
                && mutation.op == OperationV32::ReplaceOrInsert)
            &&& found is None ==> mutation == Result::<ObjectStoreMutation, FxfsError>::Err(
                FxfsError::Inconsistent,
            )
        },
{
    let key = ObjectKey::spec_object(object_id);
    let id = store.store_object_id;
    assert forall|pending: ObjectStoreMutation|
        #![trigger txn.holds(id, MutationV47::ObjectStore(pending))]
        txn.holds(id, MutationV47::ObjectStore(pending)) && pending.item.key.object_id == object_id
            && pending.item.key.data is Object implies (mutation matches Ok(mutation) && mutation.same(
        pending,
    )) by {
        let k = choose|k: int|
            0 <= k < txn.mutations.len() && (#[trigger] txn.mutations[k]).object_id == id
                && txn.mutations[k].mutation == MutationV47::ObjectStore(pending);
        assert(txn.is_object_mutation(k, id, key));
        let i = choose|i: int| #[trigger]
            txn.is_object_mutation(i, id, key) && mutation->Ok_0.same(
                txn.mutations[i].mutation->ObjectStore_0,
            );
        if i < k {
            assert(txn.mutations[i].matches(txn.mutations[k]));
        } else if k < i {
            assert(txn.mutations[k].matches(txn.mutations[i]));
        }
    }
    if txn.has_object_mutation(id, key) {
        let i = choose|i: int| #[trigger] txn.is_object_mutation(i, id, key);
        assert(txn.holds(
            id,
            MutationV47::ObjectStore(txn.mutations[i].mutation->ObjectStore_0),
        ));
    }
}

/// Changing attributes of an object replaces its record by one that has them, and changes nothing else.  What is
/// not an object has no attributes.
pub proof fn lemma_attributes_change_in_the_record(
    store: ObjectStore,
    txn: TxnView,
    node_attributes: Option<MutableNodeAttributes>,
    change_time: Option<Timestamp>,
    mutation: ObjectStoreMutation,
    other_store: u64,
    other: Mutation,
)
    requires
        in_order(txn.mutations),
    ensures
        ({
            let (after, updated) = store.attributes_updated(txn, node_attributes, change_time, mutation);
            let id = store.store_object_id;
            &&& updated is Ok <==> mutation.item.value is Object
            &&& updated matches Err(error) ==> error == FxfsError::Inconsistent && after == txn
            &&& updated is Ok ==> exists|m: ObjectStoreMutation| #[trigger]
                after.holds(id, MutationV47::ObjectStore(m)) && m.item.key == mutation.item.key && m.op
                    == mutation.op && m.item.value is Object && m.item.value->Object_kind
                    == mutation.item.value->Object_kind && m.item.value->Object_attributes
                    == attributes_after(
                    mutation.item.value->Object_attributes,
                    node_attributes,
                    change_time,
                )
            &&& other_store != id || !other.matches(MutationV47::ObjectStore(mutation)) ==> (after.holds(
                other_store,
                other,
            ) <==> txn.holds(other_store, other))
        }),
{
    if let ObjectValue::Object { attributes, .. } = mutation.item.value {
        let m = with_attributes(mutation, attributes_after(attributes, node_attributes, change_time));
        lemma_added_is_held(txn, store.store_object_id, MutationV47::ObjectStore(m));
        assert(store.attributes_updated(txn, node_attributes, change_time, mutation).0.holds(
            store.store_object_id,
            MutationV47::ObjectStore(m),
        ));
    }
}

/// A request to change nothing is always granted, and does nothing.  Any other one fails exactly if there is no
/// such object.
pub proof fn lemma_empty_change_needs_no_object(
    store: ObjectStore,
    txn: TxnView,
    object_id: u64,
    node_attributes: Option<MutableNodeAttributes>,
    change_time: Option<Timestamp>,
    found: Option<ObjectItem>,
    after: TxnView,
    updated: Result<(), FxfsError>,
)
    requires
        in_order(txn.mutations),
        store.is_attributes_update(
            txn,
            object_id,
            node_attributes,
            change_time,
            found,
            after,
            updated,
        ),
    ensures
        spec_no_change(node_attributes, change_time) ==> updated is Ok && after == txn,
        updated is Err ==> after == txn,
        !spec_no_change(node_attributes, change_time) && !txn.has_object_mutation(
            store.store_object_id,
            ObjectKey::spec_object(object_id),
        ) ==> (updated is Ok <==> (found matches Some(item) && item.value is Object)),
{
}

/// Updating the access time either sets it to that moment, in the record of the object and for the caller, or does
/// nothing at all; it is set exactly if the last access is out of date.
pub proof fn lemma_access_time_is_updated_or_nothing_is(
    store: ObjectStore,
    txn: TxnView,
    object_id: u64,
    access_time: Timestamp,
    modification_time: Timestamp,
    change_time: Timestamp,
    now: Timestamp,
    item: ObjectItem,
    after: TxnView,
    access_time_after: Timestamp,
    updated: Result<bool, FxfsError>,
)
    requires
        in_order(txn.mutations),
        !txn.has_object_mutation(store.store_object_id, ObjectKey::spec_object(object_id)),
        item.value is Object,
        store.is_access_time_update(
            txn,
            object_id,
            access_time,
            modification_time,
            change_time,
            now,
            Some(item),
            after,
            access_time_after,
            updated,
        ),
    ensures
        ({
            let out_of_date = access_time.nanos <= modification_time.nanos || access_time.nanos
                <= change_time.nanos || access_time.nanos + 86_400_000_000_000 < now.nanos;
            &&& updated == Result::<bool, FxfsError>::Ok(out_of_date)
            &&& out_of_date ==> access_time_after == now
            &&& !out_of_date ==> access_time_after == access_time && after == txn
            &&& out_of_date ==> exists|m: ObjectStoreMutation| #[trigger]
                after.holds(store.store_object_id, MutationV47::ObjectStore(m)) && m.item.key == item.key
                    && m.item.value is Object && m.item.value->Object_kind == item.value->Object_kind
                    && m.item.value->Object_attributes == (ObjectAttributes {
                    access_time: now,
                    ..item.value->Object_attributes
                }) && m.op == OperationV32::ReplaceOrInsert
        }),
{
    if spec_should_update_access_time(access_time, modification_time, change_time, now) {
        let mutation = ObjectStoreMutation { item, op: OperationV32::ReplaceOrInsert };
        lemma_attributes_change_in_the_record(
            store,
            txn,
            Some(access_time_change(now)),
            None,
            mutation,
            0,
            MutationV47::BeginFlush,
        );
        let m = choose|m: ObjectStoreMutation| #[trigger]
            after.holds(store.store_object_id, MutationV47::ObjectStore(m)) && m.item.key == item.key && m.op
                == OperationV32::ReplaceOrInsert && m.item.value is Object && m.item.value->Object_kind
                == item.value->Object_kind && m.item.value->Object_attributes == attributes_after(
                item.value->Object_attributes,
                Some(access_time_change(now)),
                None,
            );
        assert(after.holds(store.store_object_id, MutationV47::ObjectStore(m)));
    }
}

/// Creating a file inserts its record, with one reference and all times at that moment, its size, which is zero,
/// and its keys if it is encrypted.  Nothing else changes.
pub proof fn lemma_new_file_is_empty_and_has_one_name(
    store: ObjectStore,
    txn: TxnView,
    object_id: u64,
    now: Timestamp,
    encryption: Option<ObjectEncryptionOptions>,
    after: TxnView,
    handle: OpenedObject,
    other_store: u64,
    other: Mutation,
)
    requires
        in_order(txn.mutations),
        store.is_created(txn, object_id, now, encryption, after, handle),
    ensures
        ({
            let id = store.store_object_id;
            &&& exists|m: ObjectStoreMutation| #[trigger]
                after.holds(id, MutationV47::ObjectStore(m)) && m.op == OperationV32::Insert
                    && m.item.key.object_id == object_id && m.item.key.data is Object && has_refs(
                    m.item.value,
                    1,
                ) && m.item.value->Object_kind is File && ({
                    let attributes = m.item.value->Object_attributes;
                    &&& attributes.creation_time == now
                    &&& attributes.modification_time == now
                    &&& attributes.access_time == now
                    &&& attributes.change_time == now
                    &&& attributes.project_id == 0
                    &&& attributes.allocated_size == 0
                    &&& attributes.posix_attributes is None
                })
            &&& exists|m: ObjectStoreMutation| #[trigger]
                after.holds(id, MutationV47::ObjectStore(m)) && m.op == OperationV32::Insert
                    && m.item.key.object_id == object_id && m.item.key.data == ObjectKeyData::Attribute(
                    0,
                    AttributeKey::Attribute,
                ) && (m.item.value matches ObjectValue::Attribute { size, has_overwrite_extents } && size == 0
                    && !has_overwrite_extents)
            &&& encryption matches Some(options) ==> exists|m: ObjectStoreMutation| #[trigger]
                after.holds(id, MutationV47::ObjectStore(m)) && m.op == OperationV32::Insert
                    && m.item.key.object_id == object_id && m.item.key.data is Keys && (
                m.item.value matches ObjectValue::Keys(keys) && keys@.len() == 1 && keys@[0].0
                    == options.key_id && keys@[0].1 == options.key)
            &&& (encryption is None && (other matches MutationV47::ObjectStore(m)
                && m.item.key.data is Keys)) ==> (after.holds(id, other) <==> txn.holds(id, other))
            &&& other_store != id || !(other matches MutationV47::ObjectStore(m) && m.item.key.object_id
                == object_id) ==> (after.holds(other_store, other) <==> txn.holds(other_store, other))
            &&& after.new_objects == txn.new_objects.insert((id, object_id))
            &&& handle.object_id == object_id
            &&& handle.size == 0
            &&& handle.overwrite_ranges@.len() == 0
            &&& handle.fsverity is None
            &&& handle.permanent_keys <==> (encryption matches Some(options) && options.permanent)
        }),
{
    let id = store.store_object_id;
    let keys = choose|keys: Option<ObjectValue>| #[trigger]
        is_key_record(keys, encryption) && after == store.with_new_object(txn, object_id, now, keys);
    let object = MutationV47::object_mutation(
        ObjectKey::spec_object(object_id),
        new_file(now),
        OperationV32::Insert,
    );
    let size = MutationV47::object_mutation(
        ObjectKey {
            object_id,
            data: ObjectKeyData::Attribute(DEFAULT_DATA_ATTRIBUTE_ID, AttributeKey::Attribute),
        },
        ObjectValue::Attribute { size: 0, has_overwrite_extents: false },
        OperationV32::Insert,
    );
    let t1 = txn.plus(id, object);
    lemma_added_is_held(txn, id, object);
    assert(!object.matches(size));
    let t2 = match keys {
        Some(value) => {
            let record = MutationV47::object_mutation(
                ObjectKey { object_id, data: ObjectKeyData::Keys },
                value,
                OperationV32::Insert,
            );
            lemma_added_is_held(t1, id, record);
            assert(!object.matches(record) && !record.matches(size));
            t1.plus(id, record)
        },
        None => t1,
    };
    lemma_added_is_held(t2, id, size);
    assert(after == t2.plus(id, size));
    assert(after.holds(id, MutationV47::ObjectStore(object->ObjectStore_0)));
    assert(after.holds(id, MutationV47::ObjectStore(size->ObjectStore_0)));
    if let Some(value) = keys {
        let record = MutationV47::object_mutation(
            ObjectKey { object_id, data: ObjectKeyData::Keys },
            value,
            OperationV32::Insert,
        );
        assert(after.holds(id, MutationV47::ObjectStore(record->ObjectStore_0)));
    }
    assert(after.new_objects =~= txn.new_objects.insert((id, object_id)));
}

/// A new object is encrypted exactly if there is a key for it, with that key, which is one of a directory or file if
/// it is wrapped with a key of its own, and one of the volume otherwise.  Such keys can be forgotten.
pub proof fn lemma_new_object_is_encrypted_with_its_key(
    wrapping_key_id: Option<u128>,
    key: Option<FxfsKey>,
)
    ensures
        ({
            let encryption = new_object_encryption(wrapping_key_id, key);
            &&& encryption is Some <==> key is Some
            &&& encryption matches Some(options) ==> {
                &&& Some(options.key) == key
                &&& !options.permanent
                &&& wrapping_key_id is Some <==> options.key_id == 1
                &&& wrapping_key_id is None <==> options.key_id == 0
            }
        }),
{
}

/// No store is both locked and unlocked, and there is a crypt service only for an unlocked one.  What is not
/// encrypted, and what can never be unlocked again, is neither.
pub proof fn lemma_no_store_is_locked_and_unlocked(store: ObjectStore)
    ensures
        !(store.spec_is_locked() && store.spec_is_unlocked()),
        store.spec_has_crypt() ==> store.spec_is_unlocked(),
        store.spec_is_unlocked() && !store.spec_has_crypt() <==> store.lock_state
            == LockState::Unlocking,
        !store.spec_is_locked() && !store.spec_is_unlocked() <==> store.lock_state
            == LockState::Unencrypted || store.lock_state == LockState::Invalid,
        store.lock_state == LockState::Locked || store.lock_state == LockState::Locking || store.lock_state
            == LockState::Unknown ==> store.spec_is_locked(),
{
}

/// An update of the access time that fails leaves the transaction and the access time as they were.
pub proof fn lemma_failed_access_time_update_changes_nothing(
    store: ObjectStore,
    txn: TxnView,
    object_id: u64,
    access_time: Timestamp,
    modification_time: Timestamp,
    change_time: Timestamp,
    now: Timestamp,
    found: Option<ObjectItem>,
    after: TxnView,
    access_time_after: Timestamp,
    updated: Result<bool, FxfsError>,
)
    requires
        store.is_access_time_update(
            txn,
            object_id,
            access_time,
            modification_time,
            change_time,
            now,
            found,
            after,
            access_time_after,
            updated,
        ),
    ensures
        updated is Err ==> after == txn && access_time_after == access_time,
        updated == Result::<bool, FxfsError>::Ok(false) ==> after == txn && access_time_after == access_time,
        access_time_after == access_time || access_time_after == now,
{
}

/// Where nothing was counted, every counter is at zero, no flush is noted and no layer is known.
pub proof fn lemma_nothing_was_counted(counters: ObjectStoreCounters)
    ensures
        counters.is_zero() <==> {
            &&& counters.mutations_applied == 0 && counters.mutations_dropped == 0
            &&& counters.num_flushes == 0 && counters.last_flush_time is None
            &&& counters.persistent_layer_file_sizes@ == Seq::<u64>::empty()
        },
{
    if counters.persistent_layer_file_sizes@.len() == 0 {
        assert(counters.persistent_layer_file_sizes@ =~= Seq::<u64>::empty());
    }
}

/// A lock is called for only where the object changes, and for a pending change or for the record that was found.
pub proof fn lemma_lock_is_called_for_by_changes(
    store: ObjectStore,
    txn: TxnView,
    object_id: u64,
    found: Option<ObjectItem>,
    changes: spec_fn(ObjectStoreMutation) -> bool,
)
    ensures
        (forall|mutation: ObjectStoreMutation| !#[trigger] changes(mutation)) ==> store.can_change(
            txn,
            object_id,
            found,
            changes,
        ),
        found is None && !txn.has_object_mutation(store.store_object_id, ObjectKey::spec_object(object_id))
            ==> store.can_change(txn, object_id, found, changes),
{
}

/// A store is known to its children by its own object, and they know whether it has a parent itself.
pub proof fn lemma_children_know_their_parent(store: ObjectStore)
    ensures
        store.as_parent().store_object_id == store.store_object_id,
        store.as_parent().has_parent <==> store.parent_store is Some,
{
}

} // verus!
