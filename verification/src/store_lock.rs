//! Locking and unlocking encrypted stores.
use crate::errors::FxfsError;
use crate::object_record::FxfsKey;
use crate::object_store::{LockState, ObjectStore};
use crate::store_info::StoreInfo;
use vstd::prelude::*;

verus! {

/// The keys of a store, and where its cipher starts.
#[derive(Clone, Copy)]
pub struct UnlockKeys {
    pub mutations_key: FxfsKey,
    pub mutations_cipher_offset: u64,
    pub object_id_key: FxfsKey,
}

impl ObjectStore {
    /// The content of the store is known exactly while it is unlocked, or being locked or unlocked: a
    /// locked store, or one that became unusable, leaves nothing unencrypted lying around.
    pub open spec fn content_is_sealed(self) -> bool {
        match self.lock_state {
            LockState::Locked => self.store_info is None,
            LockState::Invalid => self.store_info is None,
            LockState::Unlocked => self.store_info is Some,
            LockState::UnlockedReadOnly => self.store_info is Some,
            LockState::Locking => self.store_info is Some,
            LockState::Unlocking => self.store_info is Some,
            LockState::Unencrypted => true,
            LockState::Unknown => true,
        }
    }

    /// What a client that wants to unlock the store is answered.
    pub open spec fn unlock_answer(self) -> Result<(), FxfsError> {
        match self.lock_state {
            LockState::Unencrypted => Err(FxfsError::InvalidArgs),
            LockState::Invalid => Err(FxfsError::Internal),
            LockState::Unlocked => Err(FxfsError::AlreadyBound),
            LockState::UnlockedReadOnly => Err(FxfsError::AlreadyBound),
            _ => Ok(()),
        }
    }

    /// Locked without any content.
    pub open spec fn sealed(self, synced: bool) -> ObjectStore {
        ObjectStore {
            lock_state: if synced {
                LockState::Locked
            } else {
                LockState::Invalid
            },
            store_info: None,
            ..self
        }
    }

    /// Unlocked with the given content.
    pub open spec fn opened(self, store_info: StoreInfo, read_only: bool) -> ObjectStore {
        ObjectStore {
            lock_state: if read_only {
                LockState::UnlockedReadOnly
            } else {
                LockState::Unlocked
            },
            store_info: Some(store_info),
            ..self
        }
    }

    /// Returns whether the store can be unlocked.
    pub fn check_unlock(&self) -> (check: Result<(), FxfsError>)
        requires
            self.lock_state != LockState::Unknown,
            self.lock_state != LockState::Locking,
            self.lock_state != LockState::Unlocking,
        ensures
            check == self.unlock_answer(),
            check is Ok <==> self.lock_state == LockState::Locked,
    {
        match self.lock_state {
            LockState::Unencrypted => Err(FxfsError::InvalidArgs),
            LockState::Invalid => Err(FxfsError::Internal),
            LockState::Unlocked | LockState::UnlockedReadOnly => Err(FxfsError::AlreadyBound),
            _ => Ok(()),
        }
    }

    /// Makes the content of the store known while its encrypted mutations are replayed.
    pub fn begin_unlock(&mut self, store_info: StoreInfo)
        requires
            old(self).lock_state == LockState::Locked,
        ensures
            *final(self) == (ObjectStore {
                lock_state: LockState::Unlocking,
                store_info: Some(store_info),
                ..*old(self)
            }),
            // Once nothing else is to be done, the store is unlocked with what was made known.
            final(self).opened(store_info, false) == old(self).opened(store_info, false),
            final(self).sealed(true) == old(self).sealed(true),
            final(self).content_is_sealed(),
    {
        self.lock_state = LockState::Unlocking;
        self.store_info = Some(store_info);
    }

    /// Cleans up when unlocking fails; nothing unencrypted is left lying around.  The tree is to be
    /// reset too.
    pub fn abort_unlock(&mut self)
        ensures
            *final(self) == old(self).sealed(true),
            final(self).content_is_sealed(),
    {
        self.lock_state = LockState::Locked;
        self.store_info = None;
    }

    /// Makes the store usable.  Returns whether it is to be flushed now: to avoid unbounded memory
    /// growth, the encrypted mutations should be, unless the store or the filesystem is read-only.
    pub fn finish_unlock(&mut self, read_only: bool, filesystem_read_only: bool) -> (flush: bool)
        requires
            old(self).lock_state == LockState::Unlocking,
            // Unless the store is unlocked as read-only, the filesystem must not be read-only.
            read_only || !filesystem_read_only,
        ensures
            flush == (!read_only && !filesystem_read_only),
            flush <==> final(self).lock_state == LockState::Unlocked,
            old(self).store_info matches Some(info) ==> *final(self) == old(self).opened(info, read_only),
            *final(self) == (ObjectStore {
                lock_state: if read_only {
                    LockState::UnlockedReadOnly
                } else {
                    LockState::Unlocked
                },
                ..*old(self)
            }),
            old(self).content_is_sealed() ==> final(self).content_is_sealed(),
    {
        self.lock_state = if read_only {
            LockState::UnlockedReadOnly
        } else {
            LockState::Unlocked
        };
        !read_only && !filesystem_read_only
    }

    /// Starts to lock the store.
    pub fn begin_lock(&mut self)
        requires
            old(self).lock_state == LockState::Unlocked,
        ensures
            *final(self) == (ObjectStore { lock_state: LockState::Locking, ..*old(self) }),
            old(self).content_is_sealed() ==> final(self).content_is_sealed(),
    {
        self.lock_state = LockState::Locking;
    }

    /// Locks the store after the journal was synced.  If that failed, the store is placed into an
    /// unusable but safe state (i.e. no lingering unencrypted data).  The keys are to be forgotten, and
    /// the tree is to be reset.
    pub fn finish_lock(&mut self, synced: bool)
        requires
            old(self).lock_state == LockState::Locking,
        ensures
            *final(self) == old(self).sealed(synced),
            final(self).content_is_sealed(),
    {
        self.lock_state = if synced {
            LockState::Locked
        } else {
            LockState::Invalid
        };
        self.store_info = None;
    }

    /// Locks a store which was previously unlocked read-only.  Data is not flushed.  The tree is to be
    /// reset.
    pub fn lock_read_only(&mut self)
        ensures
            *final(self) == old(self).sealed(true),
            final(self).content_is_sealed(),
    {
        self.lock_state = LockState::Locked;
        self.store_info = None;
    }
}

/// The keys of an encrypted store.
pub open spec fn spec_unlock_keys(info: StoreInfo) -> Result<UnlockKeys, FxfsError> {
    if info.mutations_cipher_offset > u32::MAX || info.object_id_key is None {
        Err(FxfsError::Inconsistent)
    } else {
        Ok(
            UnlockKeys {
                mutations_key: info.mutations_key->0,
                mutations_cipher_offset: info.mutations_cipher_offset,
                object_id_key: info.object_id_key->0,
            },
        )
    }
}

/// Returns the keys of an encrypted store.
///
/// The stream cipher supports up to 64 GiB, and by default the key is rolled after every 128 MiB.  The
/// limit is just a number that won't cause issues if it wraps.
pub fn unlock_keys(info: &StoreInfo) -> (keys: Result<UnlockKeys, FxfsError>)
    requires
        info.mutations_key is Some,
    ensures
        keys == spec_unlock_keys(*info),
        keys == (if info.mutations_cipher_offset > u32::MAX || info.object_id_key is None {
            Result::<UnlockKeys, FxfsError>::Err(FxfsError::Inconsistent)
        } else {
            Ok(
                UnlockKeys {
                    mutations_key: info.mutations_key->0,
                    mutations_cipher_offset: info.mutations_cipher_offset,
                    object_id_key: info.object_id_key->0,
                },
            )
        }),
{
    if info.mutations_cipher_offset > u32::MAX as u64 {
        return Err(FxfsError::Inconsistent);
    }
    match (info.mutations_key, info.object_id_key) {
        (Some(mutations_key), Some(object_id_key)) => Ok(
            UnlockKeys {
                mutations_key,
                mutations_cipher_offset: info.mutations_cipher_offset,
                object_id_key,
            },
        ),
        _ => Err(FxfsError::Inconsistent),
    }
}

/// Locking a store that was unlocked gives back the locked store, whatever was done about its content
/// meanwhile, and it can be unlocked again; but if the journal could not be synced it never can.
pub proof fn lemma_lock_undoes_unlock(
    store: ObjectStore,
    before: StoreInfo,
    after: StoreInfo,
    synced: bool,
)
    requires
        store.lock_state is Locked,
        store.content_is_sealed(),
    ensures
        ({
            let used = ObjectStore {
                store_info: Some(after),
                ..store.opened(before, false)
            };
            &&& synced ==> used.sealed(synced) == store
            &&& synced ==> used.sealed(synced).unlock_answer() is Ok
            &&& !synced ==> used.sealed(synced).unlock_answer() == Result::<(), FxfsError>::Err(
                FxfsError::Internal,
            )
        }),
{
}

/// A store that is unlocked, even if only for reading, cannot be unlocked again until it was locked.
pub proof fn lemma_unlocked_once(store: ObjectStore, store_info: StoreInfo, read_only: bool)
    ensures
        store.opened(store_info, read_only).unlock_answer() == Result::<(), FxfsError>::Err(
            FxfsError::AlreadyBound,
        ),
        store.opened(store_info, read_only).sealed(true).unlock_answer() is Ok,
{
}

/// Sealing a store forgets its content and nothing else; the store stays locked, or becomes unusable if the journal
/// could not be synced.
pub proof fn lemma_sealing_forgets_the_content(store: ObjectStore, synced: bool)
    ensures
        ({
            let after = store.sealed(synced);
            &&& after.store_info is None
            &&& after.lock_state == LockState::Locked <==> synced
            &&& after.lock_state == LockState::Invalid <==> !synced
            &&& after == (ObjectStore {
                store_info: after.store_info,
                lock_state: after.lock_state,
                ..store
            })
            &&& after.content_is_sealed()
        }),
{
}

/// Unlocking makes just the given content known; for reading only if that was asked for.
pub proof fn lemma_unlocking_makes_the_content_known(store: ObjectStore, info: StoreInfo, read_only: bool)
    ensures
        ({
            let after = store.opened(info, read_only);
            &&& after.store_info == Some(info)
            &&& after.lock_state == LockState::UnlockedReadOnly <==> read_only
            &&& after.lock_state == LockState::Unlocked <==> !read_only
            &&& after == (ObjectStore {
                store_info: after.store_info,
                lock_state: after.lock_state,
                ..store
            })
            &&& after.content_is_sealed()
        }),
{
}

/// Only a store that is locked, or may be, can be unlocked; there is nothing to unlock in one that is not
/// encrypted, and one that became unusable never can be.
pub proof fn lemma_only_locked_stores_can_be_unlocked(store: ObjectStore)
    ensures
        store.lock_state == LockState::Locked ==> store.unlock_answer() is Ok,
        store.lock_state == LockState::Unencrypted ==> store.unlock_answer() == Result::<
            (),
            FxfsError,
        >::Err(FxfsError::InvalidArgs),
        store.lock_state == LockState::Invalid ==> store.unlock_answer() == Result::<
            (),
            FxfsError,
        >::Err(FxfsError::Internal),
        store.lock_state == LockState::Unlocked || store.lock_state == LockState::UnlockedReadOnly
            ==> store.unlock_answer() == Result::<(), FxfsError>::Err(FxfsError::AlreadyBound),
{
}

/// A store is unlocked with the keys that are recorded about it, each for what it is for, and from the recorded
/// place of the stream on.  They are refused exactly if the place does not fit or a key is missing.
pub proof fn lemma_store_is_unlocked_with_its_keys(info: StoreInfo)
    requires
        info.mutations_key is Some,
    ensures
        ({
            let keys = spec_unlock_keys(info);
            &&& keys is Ok <==> info.object_id_key is Some && info.mutations_cipher_offset
                <= 0xffff_ffff
            &&& keys matches Ok(keys) ==> Some(keys.mutations_key) == info.mutations_key && Some(
                keys.object_id_key,
            ) == info.object_id_key && keys.mutations_cipher_offset == info.mutations_cipher_offset
            &&& keys matches Err(error) ==> error == FxfsError::Inconsistent
        }),
{
}

/// A sealed store that is locked, or became unusable, knows nothing of its content, and one that is unlocked, or on the way
/// there or back, knows it; nothing is said of a store that is not encrypted.
pub proof fn lemma_locked_stores_know_nothing(store: ObjectStore)
    ensures
        store.lock_state == LockState::Locked || store.lock_state == LockState::Invalid ==> (
        store.content_is_sealed() <==> store.store_info is None),
        store.lock_state == LockState::Unlocked || store.lock_state == LockState::UnlockedReadOnly
            || store.lock_state == LockState::Locking || store.lock_state == LockState::Unlocking ==> (
        store.content_is_sealed() <==> store.store_info is Some),
        store.lock_state == LockState::Unencrypted || store.lock_state == LockState::Unknown
            ==> store.content_is_sealed(),
{
}

} // verus!
