//! Applying mutations to stores, and writing mutations of stores to the journal.
use crate::encrypted_mutations::EncryptedView;
use crate::errors::FxfsError;
use crate::journal::JournalCheckpoint;
use crate::object_record::{FxfsKey, ObjectItem, ObjectValue, INVALID_OBJECT_ID};
use crate::object_store::{
    sequenced, LockState, ObjectStore, ObjectStoreCounters, StoreError, TreeChange,
};
use crate::store_info::{hi_part, LastObjectId, StoreInfo, StoreInfoV40};
use crate::transaction::{
    Mutation, MutationV47, ObjectStoreMutation, ObjectStoreMutationV47, OperationV32, UpdateMutationsKeyV40,
};
use std::collections::VecDeque;
use vstd::prelude::*;

verus! {

/// How a mutation is applied.
#[derive(Clone, Copy, Debug, PartialEq, Eq, Structural)]
pub struct ApplyContext {
    /// Whether the mutation is replayed from the journal.
    pub is_replay: bool,
    /// Where the mutation is in the journal.
    pub checkpoint: JournalCheckpoint,
}

/// The store may apply `mutation` in its lock state: while it is locked, only what frames a flush,
/// and the encrypted mutations that are replayed.
pub open spec fn may_apply(lock_state: LockState, mutation: Mutation, is_replay: bool) -> bool {
    (lock_state == LockState::Locked || lock_state == LockState::Locking) ==> (mutation is BeginFlush
        || mutation is EndFlush || (is_replay && (mutation is EncryptedObjectStore
        || mutation is UpdateMutationsKey)))
}

/// Inserting `item` is the birth of an object.
pub open spec fn is_birth(mutation: Mutation) -> bool {
    mutation matches MutationV47::ObjectStore(mutation) && mutation.op == OperationV32::Insert
        && mutation.item.value is Object
}

/// Merging `item` is the death of an object.
pub open spec fn is_death(mutation: Mutation) -> bool {
    mutation matches MutationV47::ObjectStore(mutation) && mutation.op == OperationV32::Merge
        && mutation.item.spec_is_tombstone()
}

/// The last object ID once `object_id` has been seen.
pub open spec fn seen_id(last: LastObjectId, object_id: u64, decrypted: Option<u32>) -> LastObjectId {
    let id = match decrypted {
        Some(lo) => (hi_part(object_id) + lo) as u64,
        None => object_id,
    };
    LastObjectId {
        id: if id > last.id {
            id
        } else {
            last.id
        },
        ..last
    }
}

impl ObjectStore {
    /// The store with another number of objects.
    pub open spec fn with_object_count(self, object_count: int) -> ObjectStore {
        ObjectStore {
            store_info: Some(
                StoreInfoV40 { object_count: object_count as u64, ..self.store_info->0 },
            ),
            ..self
        }
    }

    /// The store once one more applied mutation has been counted.
    pub open spec fn counted(self) -> ObjectStore {
        ObjectStore {
            counters: ObjectStoreCounters {
                mutations_applied: (self.counters.mutations_applied + 1) as u64,
                ..self.counters
            },
            ..self
        }
    }

    /// The store with another key for mutations.
    pub open spec fn with_mutations_key(self, key: FxfsKey) -> ObjectStore {
        ObjectStore {
            store_info: Some(StoreInfoV40 { mutations_key: Some(key), ..self.store_info->0 }),
            ..self
        }
    }

    /// The store once `mutation` has been applied, apart from its tree and counters.
    pub open spec fn applied(
        self,
        mutation: Mutation,
        is_replay: bool,
        decrypted: Option<u32>,
    ) -> ObjectStore {
        let count = self.store_info->0.object_count;
        if is_birth(mutation) {
            let counted = self.with_object_count(
                if count < u64::MAX {
                    count + 1
                } else {
                    count as int
                },
            );
            if is_replay {
                let object_id = mutation->ObjectStore_0.item.key.object_id;
                ObjectStore {
                    last_object_id: seen_id(self.last_object_id, object_id, decrypted),
                    ..counted
                }
            } else {
                counted
            }
        } else if is_death(mutation) {
            self.with_object_count(
                if count > 0 {
                    count - 1
                } else {
                    0
                },
            )
        } else {
            match mutation {
                MutationV47::CreateInternalDir(object_id) => ObjectStore {
                    store_info: Some(
                        StoreInfoV40 {
                            internal_directory_object_id: object_id,
                            ..self.store_info->0
                        },
                    ),
                    ..self
                },
                _ => self,
            }
        }
    }

    /// Why `mutation` cannot be applied.
    pub open spec fn apply_error(self, mutation: Mutation, is_replay: bool) -> Option<StoreError> {
        let inconsistent = Some(StoreError::Fxfs(FxfsError::Inconsistent));
        if !may_apply(self.lock_state, mutation, is_replay) {
            inconsistent
        } else {
            match mutation {
                MutationV47::ObjectStore(_) => None,
                MutationV47::BeginFlush | MutationV47::EndFlush => if self.parent_store is None {
                    inconsistent
                } else {
                    None
                },
                MutationV47::EncryptedObjectStore(_) | MutationV47::UpdateMutationsKey(_) =>
                    if self.lock_state == LockState::Unencrypted {
                        inconsistent
                    } else {
                        None
                    },
                MutationV47::CreateInternalDir(object_id) => if object_id == INVALID_OBJECT_ID {
                    inconsistent
                } else {
                    None
                },
                _ => Some(StoreError::UnexpectedMutation),
            }
        }
    }

    /// What applying `mutation` does to the tree.
    pub open spec fn tree_change(mutation: Mutation, offset: u64) -> TreeChange {
        match mutation {
            MutationV47::ObjectStore(mutation) => {
                let item = sequenced(mutation.item, offset);
                match mutation.op {
                    OperationV32::Insert => TreeChange::Insert(item),
                    OperationV32::ReplaceOrInsert => TreeChange::ReplaceOrInsert(item),
                    OperationV32::Merge => TreeChange::MergeInto(item),
                }
            },
            MutationV47::BeginFlush => TreeChange::Seal,
            _ => TreeChange::Unchanged,
        }
    }

    /// Applies a mutation to what the store keeps in memory, and returns what to do to its tree.  Once
    /// that has been done, `count_applied` is due.
    ///
    /// `decrypted` is the lower half of the object ID, decrypted, if the store has a cipher for them.
    pub fn apply_mutation(
        &mut self,
        mutation: Mutation,
        context: &ApplyContext,
        decrypted: Option<u32>,
    ) -> (change: Result<TreeChange, StoreError>)
        requires
            old(self).lock_state != LockState::Unknown,
            old(self).apply_error(mutation, context.is_replay) is None && (is_birth(mutation)
                || is_death(mutation) || mutation is CreateInternalDir) ==> old(
                self,
            ).store_info is Some,
            is_birth(mutation) && context.is_replay ==> (old(self).last_object_id.has_cipher
                <==> decrypted is Some),
        ensures
            match old(self).apply_error(mutation, context.is_replay) {
                Some(error) => change == Result::<TreeChange, StoreError>::Err(error) && *final(self)
                    == *old(self),
                None => {
                    &&& change == Result::<TreeChange, StoreError>::Ok(
                        Self::tree_change(mutation, context.checkpoint.file_offset),
                    )
                    &&& *final(self) == old(self).applied(mutation, context.is_replay, decrypted)
                },
            },
            // The tree changes by the operation that the mutation names, with its record as it is written at that
            // place of the journal.
            mutation matches MutationV47::ObjectStore(m) ==> (change matches Ok(change) ==> {
                let offset = context.checkpoint.file_offset;
                &&& m.op == OperationV32::Insert <==> change is Insert
                &&& m.op == OperationV32::ReplaceOrInsert <==> change is ReplaceOrInsert
                &&& m.op == OperationV32::Merge <==> change is MergeInto
                &&& change matches TreeChange::Insert(item) ==> item == (ObjectItem {
                    sequence: offset,
                    ..m.item
                })
                &&& change matches TreeChange::ReplaceOrInsert(item) ==> item == (ObjectItem {
                    sequence: offset,
                    ..m.item
                })
                &&& change matches TreeChange::MergeInto(item) ==> item == (ObjectItem {
                    sequence: offset,
                    ..m.item
                })
            }),
            // Beginning a flush seals the tree, and nothing else changes it.
            change matches Ok(change) ==> (change is Seal <==> mutation is BeginFlush) && (
            change is Unchanged <==> !(mutation is BeginFlush) && !(mutation is ObjectStore)),
    {
        match self.lock_state {
            LockState::Locked | LockState::Locking => {
                let allowed = match &mutation {
                    MutationV47::BeginFlush | MutationV47::EndFlush => true,
                    MutationV47::EncryptedObjectStore(_) | MutationV47::UpdateMutationsKey(_) => {
                        context.is_replay
                    },
                    _ => false,
                };
                if !allowed {
                    return Err(StoreError::Fxfs(FxfsError::Inconsistent));
                }
            },
            _ => {},
        }
        match mutation {
            MutationV47::ObjectStore(ObjectStoreMutationV47 { item, op }) => {
                let mut item = item;
                item.sequence = context.checkpoint.file_offset;
                match op {
                    OperationV32::Insert => {
                        // If we are inserting an object record for the first time, it signifies the
                        // birth of the object so we need to adjust the object count.
                        if matches!(item.value, ObjectValue::Object { .. }) {
                            self.adjust_object_count(true);
                            if context.is_replay {
                                self.last_object_id.update_last_object_id(
                                    item.key.object_id,
                                    decrypted,
                                );
                            }
                        }
                        Ok(TreeChange::Insert(item))
                    },
                    OperationV32::ReplaceOrInsert => Ok(TreeChange::ReplaceOrInsert(item)),
                    OperationV32::Merge => {
                        if item.is_tombstone() {
                            self.adjust_object_count(false);
                        }
                        Ok(TreeChange::MergeInto(item))
                    },
                }
            },
            MutationV47::BeginFlush => if self.parent_store.is_some() {
                Ok(TreeChange::Seal)
            } else {
                Err(StoreError::Fxfs(FxfsError::Inconsistent))
            },
            MutationV47::EndFlush => if self.parent_store.is_some() {
                Ok(TreeChange::Unchanged)
            } else {
                Err(StoreError::Fxfs(FxfsError::Inconsistent))
            },
            MutationV47::EncryptedObjectStore(_) | MutationV47::UpdateMutationsKey(_) => {
                // These are processed when the store is unlocked.
                if matches!(self.lock_state, LockState::Unencrypted) {
                    Err(StoreError::Fxfs(FxfsError::Inconsistent))
                } else {
                    Ok(TreeChange::Unchanged)
                }
            },
            MutationV47::CreateInternalDir(object_id) => {
                if object_id == INVALID_OBJECT_ID {
                    return Err(StoreError::Fxfs(FxfsError::Inconsistent));
                }
                match self.store_info.take() {
                    Some(info) => {
                        let mut info = info;
                        info.internal_directory_object_id = object_id;
                        self.store_info = Some(info);
                    },
                    None => {},
                }
                Ok(TreeChange::Unchanged)
            },
            _ => Err(StoreError::UnexpectedMutation),
        }
    }

    /// Counts one object more or one less; the count saturates.
    fn adjust_object_count(&mut self, more: bool)
        requires
            old(self).store_info is Some,
        ensures
            ({
                let count = old(self).store_info->0.object_count;
                *final(self) == old(self).with_object_count(
                    if more {
                        if count < u64::MAX {
                            count + 1
                        } else {
                            count as int
                        }
                    } else if count > 0 {
                        count - 1
                    } else {
                        0
                    },
                )
            }),
    {
        match self.store_info.take() {
            Some(info) => {
                let mut info = info;
                info.object_count = if more {
                    info.object_count.saturating_add(1)
                } else {
                    info.object_count.saturating_sub(1)
                };
                self.store_info = Some(info);
            },
            None => {},
        }
    }

    /// Counts a mutation that was applied.
    pub fn count_applied(&mut self)
        requires
            old(self).counters.mutations_applied < u64::MAX,
        ensures
            *final(self) == old(self).counted(),
    {
        self.counters.mutations_applied = self.counters.mutations_applied + 1;
    }

    /// Counts a mutation that was dropped.
    pub fn drop_mutation(&mut self)
        requires
            old(self).counters.mutations_dropped < u64::MAX,
        ensures
            *final(self) == (ObjectStore {
                counters: ObjectStoreCounters {
                    mutations_dropped: (old(self).counters.mutations_dropped + 1) as u64,
                    ..old(self).counters
                },
                ..*old(self)
            }),
    {
        self.counters.mutations_dropped = self.counters.mutations_dropped + 1;
    }

    /// How `mutation` is written to the journal.
    pub open spec fn write_plan(self, mutation: Mutation, cipher_offset: Option<u64>) -> WritePlan {
        if cipher_offset is Some && (mutation is ObjectStore || mutation is CreateInternalDir) {
            WritePlan::Encrypted {
                new_key: if cipher_offset == Some(0u64) {
                    self.store_info->0.mutations_key
                } else {
                    None
                },
            }
        } else {
            WritePlan::Plain
        }
    }

    /// Says how `mutation` is written to the journal.  `cipher_offset` is how far the cipher of the
    /// store has come, if it has one.
    ///
    /// All mutations that could affect an encrypted object store contents or the `StoreInfo` of the
    /// encrypted object store are encrypted.  Whilst CreateInternalDir is a mutation for `StoreInfo`,
    /// which isn't encrypted, it is still encrypted because that makes it easier to deal with replay.
    /// The mutations that frame a flush are needed during the initial journal replay, so they are not.
    pub fn plan_write(&self, mutation: &Mutation, cipher_offset: Option<u64>) -> (plan: WritePlan)
        requires
            !(*mutation is EncryptedObjectStore),
            !(*mutation is UpdateMutationsKey),
            cipher_offset is Some ==> self.store_info is Some
                && self.store_info->0.mutations_key is Some,
        ensures
            plan == self.write_plan(*mutation, cipher_offset),
            plan == (if cipher_offset is Some && (*mutation is ObjectStore
                || *mutation is CreateInternalDir) {
                WritePlan::Encrypted {
                    // If this is the first time the key is used, it must be written out.
                    new_key: if cipher_offset == Some(0u64) {
                        self.store_info->0.mutations_key
                    } else {
                        None
                    },
                }
            } else {
                WritePlan::Plain
            }),
    {
        match mutation {
            MutationV47::ObjectStore(_) | MutationV47::CreateInternalDir(_) => match cipher_offset {
                Some(offset) => {
                    let new_key = if offset == 0 {
                        match &self.store_info {
                            Some(info) => info.mutations_key,
                            None => None,
                        }
                    } else {
                        None
                    };
                    WritePlan::Encrypted { new_key }
                },
                None => WritePlan::Plain,
            },
            _ => WritePlan::Plain,
        }
    }

    /// Starts to use a new key for mutations.  It will be written for the next encrypted mutation.
    pub fn roll_mutations_key(&mut self, key: FxfsKey)
        requires
            old(self).store_info is Some,
        ensures
            *final(self) == old(self).with_mutations_key(key),
    {
        match self.store_info.take() {
            Some(info) => {
                let mut info = info;
                info.mutations_key = Some(key);
                self.store_info = Some(info);
            },
            None => {},
        }
    }
}

/// A mutation that was decrypted, with the lower half of its object ID, decrypted, if it is the birth of
/// an object.
pub type DecryptedMutation = (Mutation, Option<u32>);

/// The place in the journal of each mutation of some transactions.
pub open spec fn checkpoints(transactions: Seq<(JournalCheckpoint, u64)>) -> Seq<JournalCheckpoint>
    decreases transactions.len(),
{
    if transactions.len() == 0 {
        Seq::empty()
    } else {
        checkpoints(transactions.drop_last()) + Seq::new(
            transactions.last().1 as nat,
            |i: int| transactions.last().0,
        )
    }
}

/// Counts the mutations of some transactions, unless there are more than can be counted.
pub fn count_mutations(transactions: &Vec<(JournalCheckpoint, u64)>) -> (count: Option<u64>)
    ensures
        match count {
            Some(count) => count == checkpoints(transactions@).len(),
            None => checkpoints(transactions@).len() > u64::MAX,
        },
{
    let len: usize = transactions.len();
    let mut count: u64 = 0;
    let mut t: usize = 0;
    while t < len
        invariant
            t <= len,
            len == transactions@.len(),
            count == checkpoints(transactions@.take(t as int)).len(),
        decreases len - t,
    {
        assert(transactions@.take(t + 1).drop_last() =~= transactions@.take(t as int));
        match count.checked_add(transactions[t].1) {
            Some(sum) => {
                count = sum;
            },
            None => {
                proof {
                    lemma_checkpoints_prefix(transactions@, t + 1);
                }
                return None;
            },
        }
        t += 1;
    }
    assert(transactions@.take(len as int) =~= transactions@);
    Some(count)
}

proof fn lemma_checkpoints_prefix(transactions: Seq<(JournalCheckpoint, u64)>, count: int)
    requires
        0 <= count <= transactions.len(),
    ensures
        checkpoints(transactions.take(count)).len() <= checkpoints(transactions).len(),
        forall|i: int|
            0 <= i < checkpoints(transactions.take(count)).len() ==> checkpoints(transactions)[i]
                == checkpoints(transactions.take(count))[i],
    decreases transactions.len(),
{
    if count == transactions.len() {
        assert(transactions.take(count) =~= transactions);
    } else {
        assert(transactions.drop_last().take(count) =~= transactions.take(count));
        lemma_checkpoints_prefix(transactions.drop_last(), count);
    }
}

impl ObjectStore {
    /// The store once the first `count` of some decrypted mutations have been replayed and counted.
    pub open spec fn replayed(self, mutations: Seq<DecryptedMutation>, count: nat) -> ObjectStore
        decreases count,
    {
        if count == 0 {
            self
        } else {
            let (mutation, decrypted) = mutations[count - 1];
            self.replayed(mutations, (count - 1) as nat).applied(mutation, true, decrypted).counted()
        }
    }

    /// Mutation `index` cannot be applied.
    pub open spec fn rejects(self, mutations: Seq<DecryptedMutation>, index: int) -> bool {
        self.apply_error(mutations[index].0, true) is Some
    }

    /// Applies the mutations of a store that is being unlocked, now that they are decrypted.
    /// `transactions` says how many of them belong to each transaction.  Returns what to do to the tree, in
    /// order; the first mutation that cannot be applied ends this.
    ///
    /// The store goes on with `new_key`: the key is always rolled when a store is unlocked, so that no key
    /// and nonce are used twice.
    pub fn replay_decrypted(
        &mut self,
        new_key: FxfsKey,
        transactions: &Vec<(JournalCheckpoint, u64)>,
        mutations: VecDeque<DecryptedMutation>,
    ) -> (changes: Result<Vec<TreeChange>, StoreError>)
        requires
            old(self).lock_state == LockState::Unlocking,
            old(self).store_info is Some,
            old(self).last_object_id.has_cipher,
            old(self).counters.mutations_applied + mutations@.len() <= u64::MAX,
            mutations@.len() == checkpoints(transactions@).len(),
            forall|i: int|
                0 <= i < mutations@.len() && is_birth((#[trigger] mutations@[i]).0)
                    ==> mutations@[i].1 is Some,
        ensures
            match changes {
                Ok(changes) => {
                    &&& forall|i: int| 0 <= i < mutations@.len() ==> !old(self).rejects(mutations@, i)
                    &&& changes@ == Seq::new(
                        mutations@.len(),
                        |i: int|
                            Self::tree_change(
                                mutations@[i].0,
                                checkpoints(transactions@)[i].file_offset,
                            ),
                    )
                    &&& *final(self) == old(self).with_mutations_key(new_key).replayed(
                        mutations@,
                        mutations@.len(),
                    )
                    &&& final(self).store_info is Some
                    &&& final(self).store_info->0.mutations_key == Some(new_key)
                    &&& final(self).counters.mutations_applied == old(
                        self,
                    ).counters.mutations_applied + mutations@.len()
                },
                Err(error) => exists|i: int|
                    {
                        &&& 0 <= i < mutations@.len()
                        &&& #[trigger] old(self).rejects(mutations@, i)
                        &&& old(self).apply_error(mutations@[i].0, true) == Some(error)
                        &&& forall|j: int| 0 <= j < i ==> !old(self).rejects(mutations@, j)
                        &&& *final(self) == old(self).with_mutations_key(new_key).replayed(
                            mutations@,
                            i as nat,
                        )
                    },
            },
    {
        let ghost locked = *self;
        self.roll_mutations_key(new_key);
        let ghost start = *self;
        let ghost all = mutations@;
        let ghost places = checkpoints(transactions@);
        let mut rest = mutations;
        let mut changes: Vec<TreeChange> = Vec::new();
        let len: usize = transactions.len();
        let mut t: usize = 0;
        assert(transactions@.take(0) =~= Seq::empty());
        assert(all.skip(0) =~= all);
        while t < len
            invariant
                t <= len,
                len == transactions@.len(),
                locked == *old(self),
                start == locked.with_mutations_key(new_key),
                places == checkpoints(transactions@),
                all == mutations@,
                all.len() == places.len(),
                start.lock_state == LockState::Unlocking,
                forall|i: int|
                    0 <= i < all.len() && is_birth((#[trigger] all[i]).0) ==> all[i].1 is Some,
                changes@.len() == checkpoints(transactions@.take(t as int)).len(),
                changes@.len() <= all.len(),
                rest@ == all.skip(changes@.len() as int),
                *self == start.replayed(all, changes@.len()),
                self.lock_state == start.lock_state,
                self.parent_store == start.parent_store,
                self.store_info is Some,
                self.store_info->0.mutations_key == Some(new_key),
                self.last_object_id.has_cipher,
                locked.counters.mutations_applied + all.len() <= u64::MAX,
                self.counters.mutations_applied == locked.counters.mutations_applied + changes@.len(),
                forall|i: int| 0 <= i < changes@.len() ==> !locked.rejects(all, i),
                forall|i: int|
                    0 <= i < changes@.len() ==> #[trigger] changes@[i] == Self::tree_change(
                        all[i].0,
                        places[i].file_offset,
                    ),
            decreases len - t,
        {
            let (checkpoint, count) = transactions[t];
            let context = ApplyContext { is_replay: true, checkpoint };
            let ghost base = changes@.len();
            let ghost taken = transactions@.take(t + 1);
            proof {
                assert(taken.drop_last() =~= transactions@.take(t as int));
                lemma_checkpoints_prefix(transactions@, t + 1);
            }
            let mut k: u64 = 0;
            while k < count
                invariant
                    k <= count,
                    locked == *old(self),
                start == locked.with_mutations_key(new_key),
                    all == mutations@,
                    all.len() == places.len(),
                    start.lock_state == LockState::Unlocking,
                    forall|i: int|
                        0 <= i < all.len() && is_birth((#[trigger] all[i]).0) ==> all[i].1 is Some,
                    checkpoints(taken).len() == base + count,
                    checkpoints(taken).len() <= places.len(),
                    forall|i: int|
                        0 <= i < checkpoints(taken).len() ==> places[i] == checkpoints(taken)[i],
                    forall|i: int|
                        base <= i < base + count ==> #[trigger] checkpoints(taken)[i] == checkpoint,
                    context == (ApplyContext { is_replay: true, checkpoint }),
                    changes@.len() == base + k,
                    rest@ == all.skip(changes@.len() as int),
                    *self == start.replayed(all, changes@.len()),
                    self.lock_state == start.lock_state,
                    self.parent_store == start.parent_store,
                    self.store_info is Some,
                    self.store_info->0.mutations_key == Some(new_key),
                    self.last_object_id.has_cipher,
                    locked.counters.mutations_applied + all.len() <= u64::MAX,
                    self.counters.mutations_applied == locked.counters.mutations_applied
                        + changes@.len(),
                    forall|i: int| 0 <= i < changes@.len() ==> !locked.rejects(all, i),
                    forall|i: int|
                        0 <= i < changes@.len() ==> #[trigger] changes@[i] == Self::tree_change(
                            all[i].0,
                            places[i].file_offset,
                        ),
                decreases count - k,
            {
                let ghost index = changes@.len() as int;
                if let Some((mutation, decrypted)) = rest.pop_front() {
                    proof {
                        assert(all.skip(index)[0] == all[index]);
                        assert(places[index] == checkpoints(taken)[index]);
                        assert(rest@ =~= all.skip(index + 1));
                        assert(self.apply_error(mutation, true) == locked.apply_error(mutation, true));
                    }
                    match self.apply_mutation(mutation, &context, decrypted) {
                        Ok(change) => {
                            self.count_applied();
                            changes.push(change);
                            proof {
                                assert(!locked.rejects(all, index));
                            }
                        },
                        Err(error) => {
                            proof {
                                assert(locked.rejects(all, index));
                            }
                            return Err(error);
                        },
                    }
                }
                k += 1;
            }
            t += 1;
        }
        assert(transactions@.take(len as int) =~= transactions@);
        assert(changes@ =~= Seq::new(
            all.len(),
            |i: int| Self::tree_change(all[i].0, places[i].file_offset),
        ));
        Ok(changes)
    }
}

proof fn lemma_replay_keeps_the_key(
    store: ObjectStore,
    mutations: Seq<DecryptedMutation>,
    count: nat,
)
    requires
        store.store_info is Some,
    ensures
        store.replayed(mutations, count).store_info is Some,
        store.replayed(mutations, count).store_info->0.mutations_key
            == store.store_info->0.mutations_key,
    decreases count,
{
    if count > 0 {
        lemma_replay_keeps_the_key(store, mutations, (count - 1) as nat);
    }
}

/// Whatever a store has been through, once it is unlocked it writes with the key that was made for that.
pub proof fn lemma_unlock_rolls_the_key(
    store: ObjectStore,
    info: StoreInfo,
    new_key: FxfsKey,
    mutations: Seq<DecryptedMutation>,
    read_only: bool,
)
    ensures
        ({
            let unlocking = ObjectStore {
                lock_state: LockState::Unlocking,
                store_info: Some(info),
                ..store
            };
            let replayed = unlocking.with_mutations_key(new_key).replayed(
                mutations,
                mutations.len(),
            );
            let unlocked = replayed.opened(replayed.store_info->0, read_only);
            &&& unlocked.store_info is Some
            &&& unlocked.store_info->0.mutations_key == Some(new_key)
        }),
{
    let unlocking = ObjectStore {
        lock_state: LockState::Unlocking,
        store_info: Some(info),
        ..store
    };
    lemma_replay_keeps_the_key(unlocking.with_mutations_key(new_key), mutations, mutations.len());
}

/// How a mutation is written to the journal.
pub enum WritePlan {
    /// As it is.
    Plain,
    /// Serialized and encrypted, and with a new key written before it if there is one.
    Encrypted { new_key: Option<FxfsKey> },
}

/// Returns the mutations that are written to the journal for one that was encrypted: a new key first,
/// if there is one.
pub fn encrypted_records(new_key: Option<FxfsKey>, buffer: Vec<u8>) -> (records: Vec<Mutation>)
    ensures
        records@ == spec_encrypted_records(new_key, MutationV47::EncryptedObjectStore(buffer)),
{
    let mut records: Vec<Mutation> = Vec::new();
    if let Some(key) = new_key {
        records.push(MutationV47::update_mutations_key(key));
    }
    let ghost record = MutationV47::EncryptedObjectStore(buffer);
    records.push(MutationV47::EncryptedObjectStore(buffer));
    assert(records@ =~= spec_encrypted_records(new_key, record));
    records
}

/// The mutations that are written to the journal for one that was encrypted.
pub open spec fn spec_encrypted_records(new_key: Option<FxfsKey>, record: Mutation) -> Seq<Mutation> {
    match new_key {
        Some(key) => seq![MutationV47::UpdateMutationsKey(UpdateMutationsKeyV40(key)), record],
        None => seq![record],
    }
}

/// What is replayed of `records`, each of them for the store `store_object_id`.
pub open spec fn replay_records(
    start: EncryptedView,
    store_object_id: u64,
    checkpoint: JournalCheckpoint,
    records: Seq<Mutation>,
) -> EncryptedView
    decreases records.len(),
{
    if records.len() == 0 {
        start
    } else {
        replay_records(start, store_object_id, checkpoint, records.drop_last()).replaying(
            store_object_id,
            checkpoint,
            (store_object_id, records.last()),
        )
    }
}

/// What is written for an encrypted mutation is collected again when the journal is replayed: its
/// bytes are appended, and a new key is noted at the place where they start.
pub proof fn lemma_replay_collects_what_was_written(
    start: EncryptedView,
    store_object_id: u64,
    checkpoint: JournalCheckpoint,
    new_key: Option<FxfsKey>,
    buffer: Vec<u8>,
)
    ensures
        ({
            let records = spec_encrypted_records(
                new_key,
                MutationV47::EncryptedObjectStore(buffer),
            );
            replay_records(start, store_object_id, checkpoint, records) == (match new_key {
                Some(key) => start.rolling(key).pushing(checkpoint, buffer@),
                None => start.pushing(checkpoint, buffer@),
            })
        }),
{
    let record = MutationV47::EncryptedObjectStore(buffer);
    let records = spec_encrypted_records(new_key, record);
    reveal_with_fuel(replay_records, 3);
    match new_key {
        Some(key) => {
            let first = MutationV47::UpdateMutationsKey(UpdateMutationsKeyV40(key));
            assert(records.drop_last() =~= seq![first]);
            assert(records.drop_last().drop_last() =~= Seq::empty());
        },
        None => {
            assert(records.drop_last() =~= Seq::empty());
        },
    }
}

/// While a store is locked, applying mutations changes nothing that it keeps in memory, and nothing
/// is inserted in its tree.
pub proof fn lemma_locked_store_stays_as_it_is(
    store: ObjectStore,
    mutation: Mutation,
    is_replay: bool,
    decrypted: Option<u32>,
    offset: u64,
)
    requires
        store.lock_state == LockState::Locked || store.lock_state == LockState::Locking,
        store.apply_error(mutation, is_replay) is None,
    ensures
        store.applied(mutation, is_replay, decrypted) == store,
        ObjectStore::tree_change(mutation, offset) is Unchanged || ObjectStore::tree_change(
            mutation,
            offset,
        ) is Seal,
{
}

/// Creating an object and then deleting it leaves the number of objects as it was, unless the number
/// is already as large as can be counted.
pub proof fn lemma_birth_and_death_balance(
    store: ObjectStore,
    birth: Mutation,
    death: Mutation,
)
    requires
        store.store_info is Some,
        store.store_info->0.object_count < u64::MAX,
        is_birth(birth),
        is_death(death),
    ensures
        store.applied(birth, false, None).applied(death, false, None).store_info->0.object_count
            == store.store_info->0.object_count,
{
}

/// Applying a mutation of a record changes the tree by the operation that the mutation names: what is inserted is
/// inserted, what is replaced is replaced, and a merge, and only a merge, is merged into what is there.  The
/// record is that of the mutation, as it is written at that place of the journal.
pub proof fn lemma_tree_changes_by_the_named_operation(mutation: ObjectStoreMutation, offset: u64)
    ensures
        ({
            let change = ObjectStore::tree_change(MutationV47::ObjectStore(mutation), offset);
            &&& mutation.op == OperationV32::Insert <==> change is Insert
            &&& mutation.op == OperationV32::ReplaceOrInsert <==> change is ReplaceOrInsert
            &&& mutation.op == OperationV32::Merge <==> change is MergeInto
            &&& exists|item: ObjectItem|
                (change == TreeChange::Insert(item) || change == TreeChange::ReplaceOrInsert(item) || change
                    == TreeChange::MergeInto(item)) && #[trigger] item.key == mutation.item.key && item.value
                    == mutation.item.value && item.sequence == offset
        }),
{
    let item = ObjectItem { sequence: offset, ..mutation.item };
    assert(item.key == mutation.item.key);
}

/// Beginning a flush seals the tree; whatever else is no mutation of a record leaves the tree alone.
pub proof fn lemma_only_records_and_flushes_change_the_tree(mutation: Mutation, offset: u64)
    ensures
        ObjectStore::tree_change(mutation, offset) is Seal <==> mutation is BeginFlush,
        ObjectStore::tree_change(mutation, offset) is Unchanged <==> !(mutation is BeginFlush) && !(
        mutation is ObjectStore),
{
}

/// Inserting the record of an object counts one object more, and merging the deletion of one counts one less; the
/// count stays within its bounds.  Nothing else is counted, and no key, directory or identifier that is recorded
/// about the store changes with it.
pub proof fn lemma_objects_are_counted(
    store: ObjectStore,
    mutation: ObjectStoreMutation,
    is_replay: bool,
    decrypted: Option<u32>,
)
    requires
        store.store_info is Some,
    ensures
        ({
            let after = store.applied(MutationV47::ObjectStore(mutation), is_replay, decrypted);
            let before = store.store_info->0.object_count;
            let count = after.store_info->0.object_count;
            let born = mutation.op == OperationV32::Insert && mutation.item.value is Object;
            let died = mutation.op == OperationV32::Merge && mutation.item.key.data is Object
                && mutation.item.value is Deleted;
            &&& after.store_info is Some
            &&& born && before < u64::MAX ==> count == before + 1
            &&& born && before == u64::MAX ==> count == before
            &&& died && before > 0 ==> count == before - 1
            &&& died && before == 0 ==> count == 0
            &&& !born && !died ==> after == store
            &&& after.store_info->0 == (StoreInfoV40 { object_count: count, ..store.store_info->0 })
            &&& after.lock_state == store.lock_state
            &&& after.parent_store == store.parent_store
            &&& after.store_object_id == store.store_object_id
            &&& after.counters == store.counters
            &&& !is_replay || !born ==> after.last_object_id == store.last_object_id
        }),
{
}

/// Replaying the insertion of an object makes its identifier, decrypted if it was encrypted, count as used: the last
/// identifier is then no smaller, and otherwise the same as before.
pub proof fn lemma_replayed_identifiers_count_as_used(
    store: ObjectStore,
    mutation: ObjectStoreMutation,
    lo: u32,
)
    requires
        store.store_info is Some,
        mutation.op == OperationV32::Insert,
        mutation.item.value is Object,
    ensures
        ({
            let id = mutation.item.key.object_id;
            let plain = store.applied(MutationV47::ObjectStore(mutation), true, None).last_object_id;
            let decrypted = store.applied(
                MutationV47::ObjectStore(mutation),
                true,
                Some(lo),
            ).last_object_id;
            let before = store.last_object_id;
            &&& plain.id >= id && plain.id >= before.id && (plain.id == id || plain.id == before.id)
            &&& decrypted.id >= before.id
            &&& hi_part(id) + lo <= u64::MAX ==> decrypted.id >= hi_part(id) + lo && (decrypted.id
                == hi_part(id) + lo || decrypted.id == before.id)
            &&& plain.has_cipher == before.has_cipher
            &&& decrypted.has_cipher == before.has_cipher
        }),
{
}

/// The directory for internal files is the one that was created last; nothing else of the store changes with it.
/// Flushes, and what is still encrypted, change nothing that is kept in memory.
pub proof fn lemma_internal_directory_is_noted(
    store: ObjectStore,
    object_id: u64,
    other: Mutation,
    is_replay: bool,
    decrypted: Option<u32>,
)
    requires
        store.store_info is Some,
    ensures
        ({
            let after = store.applied(
                MutationV47::CreateInternalDir(object_id),
                is_replay,
                decrypted,
            );
            &&& after.store_info == Some(
                StoreInfoV40 { internal_directory_object_id: object_id, ..store.store_info->0 },
            )
            &&& after == (ObjectStore { store_info: after.store_info, ..store })
        }),
        !(other is ObjectStore) && !(other is CreateInternalDir) ==> store.applied(
            other,
            is_replay,
            decrypted,
        ) == store,
{
}

/// A locked store takes only what frames a flush and, during replay, what is encrypted.  Any other store takes all
/// mutations of records; an unencrypted one takes nothing that is encrypted, and one without a parent is not
/// flushed.  The directory for internal files must be an object.  No store takes what is meant for others.
pub proof fn lemma_what_a_store_takes(store: ObjectStore, mutation: Mutation, is_replay: bool)
    ensures
        ({
            let error = store.apply_error(mutation, is_replay);
            let locked = store.lock_state == LockState::Locked || store.lock_state == LockState::Locking;
            let inconsistent = Some(StoreError::Fxfs(FxfsError::Inconsistent));
            &&& mutation is ObjectStore ==> error == (if locked {
                inconsistent
            } else {
                None
            })
            &&& mutation is BeginFlush || mutation is EndFlush ==> error == (if store.parent_store is None {
                inconsistent
            } else {
                None
            })
            &&& mutation is EncryptedObjectStore || mutation is UpdateMutationsKey ==> error == (if (locked
                && !is_replay) || store.lock_state == LockState::Unencrypted {
                inconsistent
            } else {
                None
            })
            &&& mutation matches MutationV47::CreateInternalDir(object_id) ==> error == (if locked
                || object_id == 0 {
                inconsistent
            } else {
                None
            })
            &&& mutation is Allocator || mutation is DeleteVolume || mutation is UpdateBorrowed ==> error
                is Some && (!locked ==> error == Some(StoreError::UnexpectedMutation)) && (locked ==> error
                == inconsistent)
        }),
{
}

/// Counting an applied mutation counts one more, and changes nothing else.
pub proof fn lemma_counting_counts_one(store: ObjectStore)
    requires
        store.counters.mutations_applied < u64::MAX,
    ensures
        ({
            let after = store.counted();
            &&& after.counters.mutations_applied == store.counters.mutations_applied + 1
            &&& after.counters.mutations_dropped == store.counters.mutations_dropped
            &&& after.counters.num_flushes == store.counters.num_flushes
            &&& after.counters.last_flush_time == store.counters.last_flush_time
            &&& after == (ObjectStore { counters: after.counters, ..store })
        }),
{
}

/// The places of the mutations of some transactions are those of the transactions one after the other, each as
/// often as the transaction has mutations.
pub proof fn lemma_transactions_follow_each_other(
    first: Seq<(JournalCheckpoint, u64)>,
    later: Seq<(JournalCheckpoint, u64)>,
    one: (JournalCheckpoint, u64),
)
    ensures
        checkpoints(first + later) == checkpoints(first) + checkpoints(later),
        checkpoints(seq![one]).len() == one.1,
        forall|i: int| 0 <= i < one.1 ==> #[trigger] checkpoints(seq![one])[i] == one.0,
    decreases later.len(),
{
    reveal_with_fuel(checkpoints, 2);
    assert(seq![one].drop_last() =~= Seq::empty());
    if later.len() == 0 {
        assert(first + later =~= first);
        assert(checkpoints(first) + checkpoints(later) =~= checkpoints(first));
    } else {
        lemma_transactions_follow_each_other(first, later.drop_last(), one);
        assert((first + later).drop_last() =~= first + later.drop_last());
        assert(checkpoints(first + later) =~= checkpoints(first) + checkpoints(later));
    }
}

/// Replaying some mutations and then one more is the same as replaying them and applying that one, which is
/// counted; so as many are counted as were replayed.
pub proof fn lemma_replay_goes_on_from_where_it_was(
    store: ObjectStore,
    mutations: Seq<DecryptedMutation>,
    count: nat,
)
    requires
        count < mutations.len(),
        store.counters.mutations_applied + mutations.len() <= u64::MAX,
    ensures
        store.replayed(mutations, 0) == store,
        store.replayed(mutations, count + 1) == store.replayed(mutations, count).applied(
            mutations[count as int].0,
            true,
            mutations[count as int].1,
        ).counted(),
        store.replayed(mutations, count).counters.mutations_applied == store.counters.mutations_applied
            + count,
    decreases count,
{
    if count > 0 {
        lemma_replay_goes_on_from_where_it_was(store, mutations, (count - 1) as nat);
    }
}

/// What changes the content of a store, or what is recorded about it, is encrypted exactly if the store has a
/// cipher; what frames a flush never is.  The key is written before the first use of the cipher and only then.
pub proof fn lemma_content_is_written_encrypted(
    store: ObjectStore,
    mutation: Mutation,
    cipher_offset: Option<u64>,
)
    ensures
        ({
            let plan = store.write_plan(mutation, cipher_offset);
            &&& cipher_offset is None ==> plan is Plain
            &&& mutation is ObjectStore || mutation is CreateInternalDir ==> (plan is Encrypted
                <==> cipher_offset is Some)
            &&& mutation is BeginFlush || mutation is EndFlush || mutation is Allocator
                || mutation is DeleteVolume || mutation is UpdateBorrowed ==> plan is Plain
            &&& plan matches WritePlan::Encrypted { new_key } ==> {
                &&& cipher_offset == Some(0u64) ==> new_key == store.store_info->0.mutations_key
                &&& cipher_offset != Some(0u64) ==> new_key is None
            }
        }),
{
}

/// What was encrypted is written last, once and as it is, and a new key right before it.
pub proof fn lemma_key_is_written_before_what_it_encrypts(new_key: Option<FxfsKey>, record: Mutation)
    ensures
        ({
            let records = spec_encrypted_records(new_key, record);
            &&& records.last() == record
            &&& new_key is None ==> records.len() == 1
            &&& new_key matches Some(key) ==> records.len() == 2 && (
            records[0] matches MutationV47::UpdateMutationsKey(update) && update.0 == key)
        }),
{
}

/// Rolling the key for mutations sets that key and nothing else.
pub proof fn lemma_rolling_sets_the_key_alone(store: ObjectStore, key: FxfsKey)
    requires
        store.store_info is Some,
    ensures
        ({
            let after = store.with_mutations_key(key);
            &&& after.store_info is Some
            &&& after.store_info->0.mutations_key == Some(key)
            &&& after.store_info->0.object_id_key == store.store_info->0.object_id_key
            &&& after.store_info->0 == (StoreInfoV40 {
                mutations_key: Some(key),
                ..store.store_info->0
            })
            &&& after == (ObjectStore { store_info: after.store_info, ..store })
        }),
{
}

/// A store that is being unlocked rejects nothing but what is meant for others, a directory for internal files that is no
/// object and, if it has no parent, flushes.
pub proof fn lemma_what_is_rejected(store: ObjectStore, mutations: Seq<DecryptedMutation>, index: int)
    requires
        store.lock_state == LockState::Unlocking,
        0 <= index < mutations.len(),
    ensures
        ({
            let mutation = mutations[index].0;
            store.rejects(mutations, index) <==> {
                ||| mutation is Allocator
                ||| mutation is DeleteVolume
                ||| mutation is UpdateBorrowed
                ||| mutation == MutationV47::CreateInternalDir(0)
                ||| (mutation is BeginFlush || mutation is EndFlush) && store.parent_store is None
            }
        }),
{
}

} // verus!
