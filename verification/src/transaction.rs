//! Mutations, and the transactions that group them.
use crate::lexicographic::{compare, lemma_lex_total, lemma_lex_transitive, lex_lt, Comparison};
use crate::lock_keys::{LockKey, LockKeys};
use crate::lock_manager::{
    drop_run, droppable, CommitPrepare, LockManager, LockState, LockWaker,
};
use crate::object_record::{
    append_widened, lemma_key_order_injective, lemma_records_of_an_object_stand_together, widened,
    AttributeKey, FxfsKey, ObjectItem, ObjectKey, ObjectKeyData, ObjectValue, ProjectProperty, INVALID_OBJECT_ID,
};
use core::cmp::Ordering;
use core::ops::Range;
use vstd::prelude::*;
use vstd::std_specs::cmp::{PartialEqSpec, PartialOrdSpec};

verus! {

/// This is the amount of space that is reserved for metadata when a new transaction is created.
/// A transaction should not take more than this.  This is expressed in terms of space occupied in
/// the journal; transactions must not take up more space in the journal than the number below.
pub const TRANSACTION_MAX_JOURNAL_USAGE: u64 = 24_576;

/// The different LSM tree operations that can be performed as part of a mutation.
pub type Operation = OperationV32;

#[derive(Clone, Copy, Debug, PartialEq, Eq, Structural)]
pub enum OperationV32 {
    Insert,
    ReplaceOrInsert,
    Merge,
}

/// Mutations of objects compare by their key alone, rather than by key and value, so that mutations
/// can be deduplicated and found.
pub type ObjectStoreMutation = ObjectStoreMutationV47;

#[derive(Debug)]
pub struct ObjectStoreMutationV47 {
    pub item: ObjectItem,
    pub op: OperationV32,
}

impl PartialEq for ObjectStoreMutationV47 {
    fn eq(&self, other: &Self) -> (equal: bool) {
        let (a, b) = (self.item.key.order(), other.item.key.order());
        proof {
            lemma_key_order_injective(self.item.key, other.item.key);
        }
        compare(&a, &b) == Comparison::Same
    }
}

impl vstd::std_specs::cmp::PartialEqSpecImpl for ObjectStoreMutationV47 {
    open spec fn obeys_eq_spec() -> bool {
        true
    }

    open spec fn eq_spec(&self, other: &Self) -> bool {
        self.item.key.same(other.item.key)
    }
}

impl PartialOrd for ObjectStoreMutationV47 {
    fn partial_cmp(&self, other: &Self) -> (ordering: Option<Ordering>) {
        let (a, b) = (self.item.key.order(), other.item.key.order());
        match compare(&a, &b) {
            Comparison::Before => Some(Ordering::Less),
            Comparison::Same => Some(Ordering::Equal),
            Comparison::After => Some(Ordering::Greater),
        }
    }
}

impl vstd::std_specs::cmp::PartialOrdSpecImpl for ObjectStoreMutationV47 {
    open spec fn obeys_partial_cmp_spec() -> bool {
        true
    }

    open spec fn partial_cmp_spec(&self, other: &Self) -> Option<Ordering> {
        let (a, b) = (self.item.key.spec_order(), other.item.key.spec_order());
        if lex_lt(a, b) {
            Some(Ordering::Less)
        } else if a == b {
            Some(Ordering::Equal)
        } else {
            Some(Ordering::Greater)
        }
    }
}

impl ObjectStoreMutationV47 {
    /// Both change the same record in the same way.
    pub open spec fn same(self, other: ObjectStoreMutationV47) -> bool {
        self.item.same(other.item) && self.op == other.op
    }

    pub fn duplicate(&self) -> (copy: Self)
        ensures
            copy.same(*self),
    {
        ObjectStoreMutationV47 { item: self.item.duplicate(), op: self.op }
    }
}

/// A range of the device, sorted first by the start of the range, then by the end.
pub type DeviceRange = DeviceRangeV32;

#[derive(Clone, Copy, Debug, PartialEq, Eq, Structural)]
pub struct DeviceRangeV32 {
    pub start: u64,
    pub end: u64,
}

impl PartialOrd for DeviceRangeV32 {
    fn partial_cmp(&self, other: &Self) -> (ordering: Option<Ordering>) {
        if self.start < other.start {
            Some(Ordering::Less)
        } else if self.start > other.start {
            Some(Ordering::Greater)
        } else if self.end < other.end {
            Some(Ordering::Less)
        } else if self.end > other.end {
            Some(Ordering::Greater)
        } else {
            Some(Ordering::Equal)
        }
    }
}

impl vstd::std_specs::cmp::PartialOrdSpecImpl for DeviceRangeV32 {
    open spec fn obeys_partial_cmp_spec() -> bool {
        true
    }

    open spec fn partial_cmp_spec(&self, other: &Self) -> Option<Ordering> {
        if self.start < other.start || self.start == other.start && self.end < other.end {
            Some(Ordering::Less)
        } else if self.start == other.start && self.end == other.end {
            Some(Ordering::Equal)
        } else {
            Some(Ordering::Greater)
        }
    }
}

impl From<Range<u64>> for DeviceRangeV32 {
    fn from(range: Range<u64>) -> (device_range: Self) {
        DeviceRangeV32 { start: range.start, end: range.end }
    }
}

impl vstd::std_specs::convert::FromSpecImpl<Range<u64>> for DeviceRangeV32 {
    open spec fn obeys_from_spec() -> bool {
        true
    }

    open spec fn from_spec(range: Range<u64>) -> Self {
        DeviceRangeV32 { start: range.start, end: range.end }
    }
}

pub type AllocatorMutation = AllocatorMutationV32;

#[derive(Clone, Copy, Debug, PartialEq, Eq, Structural)]
pub enum AllocatorMutationV32 {
    Allocate { device_range: DeviceRangeV32, owner_object_id: u64 },
    Deallocate { device_range: DeviceRangeV32, owner_object_id: u64 },
    SetLimit { owner_object_id: u64, bytes: u64 },
    /// Marks all extents with a given owner_object_id for deletion.
    /// Used to free space allocated to encrypted ObjectStore where we may not have the key.
    /// Note that the actual deletion time is undefined so this should never be used where an
    /// ObjectStore is still in use due to a high risk of corruption. Similarly, owner_object_id
    /// should never be reused for the same reasons.
    MarkForDeletion(u64),
}

impl AllocatorMutationV32 {
    /// The numbers that stand for this mutation, in order of significance.
    pub open spec fn spec_order(self) -> Seq<u64> {
        match self {
            AllocatorMutationV32::Allocate { device_range, owner_object_id } => seq![
                0u64,
                device_range.start,
                device_range.end,
                owner_object_id,
            ],
            AllocatorMutationV32::Deallocate { device_range, owner_object_id } => seq![
                1u64,
                device_range.start,
                device_range.end,
                owner_object_id,
            ],
            AllocatorMutationV32::SetLimit { owner_object_id, bytes } => seq![
                2u64,
                owner_object_id,
                bytes,
            ],
            AllocatorMutationV32::MarkForDeletion(object_id) => seq![3u64, object_id],
        }
    }

    /// Returns the numbers that stand for this mutation.
    pub fn order(&self) -> (order: Vec<u64>)
        ensures
            order@ == self.spec_order(),
    {
        let order: Vec<u64> = match *self {
            AllocatorMutationV32::Allocate { device_range, owner_object_id } => vec![
                0,
                device_range.start,
                device_range.end,
                owner_object_id,
            ],
            AllocatorMutationV32::Deallocate { device_range, owner_object_id } => vec![
                1,
                device_range.start,
                device_range.end,
                owner_object_id,
            ],
            AllocatorMutationV32::SetLimit { owner_object_id, bytes } => vec![
                2,
                owner_object_id,
                bytes,
            ],
            AllocatorMutationV32::MarkForDeletion(object_id) => vec![3, object_id],
        };
        assert(order@ =~= self.spec_order());
        order
    }
}

proof fn lemma_allocator_order_injective(a: AllocatorMutationV32, b: AllocatorMutationV32)
    ensures
        a.spec_order() == b.spec_order() <==> a == b,
{
    let (x, y) = (a.spec_order(), b.spec_order());
    if x == y {
        assert(x[0] == y[0] && x.len() == y.len());
        assert(x[1] == y[1]);
        if x.len() > 2 {
            assert(x[2] == y[2]);
        }
        if x.len() > 3 {
            assert(x[3] == y[3]);
        }
    }
}

pub type UpdateMutationsKey = UpdateMutationsKeyV40;

/// No two of these are ever equal: each one stays in its transaction.
#[derive(Clone, Copy, Debug)]
pub struct UpdateMutationsKeyV40(pub FxfsKey);

/// The journal consists of these records which will be replayed at mount time.  Within a
/// transaction, these are stored as a set which allows some mutations to be deduplicated and found.
/// For example, we need to be able to find object size changes.
pub type Mutation = MutationV47;

#[derive(Debug)]
pub enum MutationV47 {
    ObjectStore(ObjectStoreMutationV47),
    EncryptedObjectStore(Vec<u8>),
    Allocator(AllocatorMutationV32),
    /// Indicates the beginning of a flush.  This would typically involve sealing a tree.
    BeginFlush,
    /// Indicates the end of a flush.  This would typically involve replacing the immutable layers
    /// with compacted ones.
    EndFlush,
    /// Volume has been deleted.  Requires we remove it from the set of managed ObjectStore.
    DeleteVolume,
    UpdateBorrowed(u64),
    UpdateMutationsKey(UpdateMutationsKeyV40),
    CreateInternalDir(u64),
}

impl MutationV47 {
    /// A mutation of an object.
    pub open spec fn object_mutation(key: ObjectKey, value: ObjectValue, op: Operation) -> Self {
        MutationV47::ObjectStore(
            ObjectStoreMutationV47 { item: ObjectItem { key, value, sequence: 0 }, op },
        )
    }

    pub fn insert_object(key: ObjectKey, value: ObjectValue) -> (mutation: Self)
        ensures
            mutation == Self::object_mutation(key, value, OperationV32::Insert),
    {
        MutationV47::ObjectStore(
            ObjectStoreMutationV47 { item: ObjectItem::new(key, value), op: OperationV32::Insert },
        )
    }

    pub fn replace_or_insert_object(key: ObjectKey, value: ObjectValue) -> (mutation: Self)
        ensures
            mutation == Self::object_mutation(key, value, OperationV32::ReplaceOrInsert),
    {
        MutationV47::ObjectStore(
            ObjectStoreMutationV47 {
                item: ObjectItem::new(key, value),
                op: OperationV32::ReplaceOrInsert,
            },
        )
    }

    pub fn merge_object(key: ObjectKey, value: ObjectValue) -> (mutation: Self)
        ensures
            mutation == Self::object_mutation(key, value, OperationV32::Merge),
    {
        MutationV47::ObjectStore(
            ObjectStoreMutationV47 { item: ObjectItem::new(key, value), op: OperationV32::Merge },
        )
    }

    pub fn update_mutations_key(key: FxfsKey) -> (mutation: Self)
        ensures
            mutation == MutationV47::UpdateMutationsKey(UpdateMutationsKeyV40(key)),
    {
        MutationV47::UpdateMutationsKey(UpdateMutationsKeyV40(key))
    }

    /// The numbers that stand for what a transaction knows this mutation by, in order of
    /// significance.
    pub open spec fn spec_order(self) -> Seq<u64> {
        match self {
            MutationV47::ObjectStore(mutation) => seq![0u64] + mutation.item.key.spec_order(),
            MutationV47::EncryptedObjectStore(bytes) => seq![1u64] + widened(bytes@),
            MutationV47::Allocator(mutation) => seq![2u64] + mutation.spec_order(),
            MutationV47::BeginFlush => seq![3u64],
            MutationV47::EndFlush => seq![4u64],
            MutationV47::DeleteVolume => seq![5u64],
            MutationV47::UpdateBorrowed(bytes) => seq![6u64, bytes],
            MutationV47::UpdateMutationsKey(_) => seq![7u64],
            MutationV47::CreateInternalDir(object_id) => seq![8u64, object_id],
        }
    }

    /// Returns the numbers that stand for what a transaction knows this mutation by.
    pub fn order(&self) -> (order: Vec<u64>)
        ensures
            order@ == self.spec_order(),
    {
        let mut order: Vec<u64> = Vec::new();
        match self {
            MutationV47::ObjectStore(mutation) => {
                order.push(0);
                let mut rest = mutation.item.key.order();
                order.append(&mut rest);
            },
            MutationV47::EncryptedObjectStore(bytes) => {
                order.push(1);
                append_widened(&mut order, bytes);
            },
            MutationV47::Allocator(mutation) => {
                order.push(2);
                let mut rest = mutation.order();
                order.append(&mut rest);
            },
            MutationV47::BeginFlush => {
                order.push(3);
            },
            MutationV47::EndFlush => {
                order.push(4);
            },
            MutationV47::DeleteVolume => {
                order.push(5);
            },
            MutationV47::UpdateBorrowed(bytes) => {
                order.push(6);
                order.push(*bytes);
            },
            MutationV47::UpdateMutationsKey(_) => {
                order.push(7);
            },
            MutationV47::CreateInternalDir(object_id) => {
                order.push(8);
                order.push(*object_id);
            },
        }
        assert(order@ =~= self.spec_order());
        order
    }

    /// Whether a transaction takes both for the same mutation: mutations of objects are known by
    /// their key, and updates of the mutations key are never the same.
    pub open spec fn matches(self, other: MutationV47) -> bool {
        match (self, other) {
            (MutationV47::ObjectStore(a), MutationV47::ObjectStore(b)) => a.item.key.same(
                b.item.key,
            ),
            (
                MutationV47::EncryptedObjectStore(a),
                MutationV47::EncryptedObjectStore(b),
            ) => a@ == b@,
            (MutationV47::UpdateMutationsKey(_), MutationV47::UpdateMutationsKey(_)) => false,
            _ => self == other,
        }
    }

    /// The mutation records where a part of an attribute lies.
    pub open spec fn is_extent(self) -> bool {
        self matches MutationV47::ObjectStore(mutation) && mutation.item.key.data matches
            ObjectKeyData::Attribute(_, AttributeKey::Extent(_))
    }
}

/// Two mutations match exactly if the same numbers stand for them, unless they update the mutations
/// key.
pub proof fn lemma_matches_iff_same_order(a: MutationV47, b: MutationV47)
    ensures
        a.matches(b) <==> a.spec_order() == b.spec_order() && !(a is UpdateMutationsKey),
{
    let (x, y) = (a.spec_order(), b.spec_order());
    if x == y {
        assert(x[0] == y[0] && x.len() == y.len());
        match a {
            MutationV47::ObjectStore(mutation) => {
                let other = b->ObjectStore_0;
                assert(x.skip(1) =~= mutation.item.key.spec_order());
                assert(y.skip(1) =~= other.item.key.spec_order());
                lemma_key_order_injective(mutation.item.key, other.item.key);
            },
            MutationV47::EncryptedObjectStore(bytes) => {
                let other = b->EncryptedObjectStore_0;
                assert(x.skip(1) =~= widened(bytes@));
                assert(y.skip(1) =~= widened(other@));
                assert(bytes@ =~= other@) by {
                    assert forall|i: int| 0 <= i < bytes@.len() implies bytes@[i] == other@[i] by {
                        assert(widened(bytes@)[i] == widened(other@)[i]);
                    }
                }
            },
            MutationV47::Allocator(mutation) => {
                let other = b->Allocator_0;
                assert(x.skip(1) =~= mutation.spec_order());
                assert(y.skip(1) =~= other.spec_order());
                lemma_allocator_order_injective(mutation, other);
            },
            MutationV47::UpdateBorrowed(_) | MutationV47::CreateInternalDir(_) => {
                assert(x[1] == y[1]);
            },
            _ => {},
        }
    } else if a.matches(b) {
        match a {
            MutationV47::ObjectStore(mutation) => {
                lemma_key_order_injective(mutation.item.key, b->ObjectStore_0.item.key);
            },
            _ => {},
        }
    }
}

/// A mutation in a transaction.
#[derive(Debug)]
pub struct TxnMutation {
    /// This, at time of writing, is either the object ID of an object store, or the object ID of the
    /// allocator.  In the case of an object mutation, there's another object ID in the mutation
    /// record that would be for the object actually being changed.
    pub object_id: u64,
    /// The actual mutation.  This gets serialized to the journal.
    pub mutation: Mutation,
    /// Tells which object is to be informed when the mutation is applied.  During replay, there will
    /// always be no associated object.
    pub associated_object: Option<u64>,
}

impl TxnMutation {
    /// The numbers by which a transaction sorts its mutations, in order of significance.  The
    /// associated object is not among them.
    pub open spec fn spec_order(self) -> Seq<u64> {
        seq![self.object_id] + self.mutation.spec_order()
    }

    /// Whether a transaction takes both for the same mutation.
    pub open spec fn matches(self, other: TxnMutation) -> bool {
        self.object_id == other.object_id && self.mutation.matches(other.mutation)
    }

    fn order(&self) -> (order: Vec<u64>)
        ensures
            order@ == self.spec_order(),
    {
        let mut order: Vec<u64> = Vec::new();
        order.push(self.object_id);
        let mut rest = self.mutation.order();
        order.append(&mut rest);
        assert(order@ =~= self.spec_order());
        order
    }
}

proof fn lemma_txn_matches(a: TxnMutation, b: TxnMutation)
    ensures
        a.matches(b) <==> a.spec_order() == b.spec_order() && !(a.mutation is UpdateMutationsKey),
{
    let (x, y) = (a.spec_order(), b.spec_order());
    assert(x.skip(1) =~= a.mutation.spec_order());
    assert(y.skip(1) =~= b.mutation.spec_order());
    lemma_matches_iff_same_order(a.mutation, b.mutation);
    if x == y {
        assert(x[0] == y[0]);
    }
}

/// Where `mutation` stands in `mutations`, or the number of mutations if it is not among them.
pub open spec fn match_index(mutations: Seq<TxnMutation>, mutation: TxnMutation) -> nat
    decreases mutations.len(),
{
    if mutations.len() == 0 || mutations[0].matches(mutation) {
        0
    } else {
        1 + match_index(mutations.skip(1), mutation)
    }
}

/// How many of `mutations` come first when `mutation` is put in order.
pub open spec fn order_index(mutations: Seq<TxnMutation>, mutation: TxnMutation) -> nat
    decreases mutations.len(),
{
    if mutations.len() == 0 || lex_lt(mutation.spec_order(), mutations[0].spec_order()) {
        0
    } else {
        1 + order_index(mutations.skip(1), mutation)
    }
}

/// `mutations` with `mutation` in place of the one that it matches or, if there is none, added in
/// order.
pub open spec fn with_mutation(mutations: Seq<TxnMutation>, mutation: TxnMutation) -> Seq<
    TxnMutation,
> {
    let index = match_index(mutations, mutation);
    if index < mutations.len() {
        mutations.update(index as int, mutation)
    } else {
        mutations.insert(order_index(mutations, mutation) as int, mutation)
    }
}

/// `mutations` without the one that `mutation` matches.
pub open spec fn without_mutation(mutations: Seq<TxnMutation>, mutation: TxnMutation) -> Seq<
    TxnMutation,
> {
    let index = match_index(mutations, mutation);
    if index < mutations.len() {
        mutations.remove(index as int)
    } else {
        mutations
    }
}

/// Mutations are in order, and no two of them match.
pub open spec fn in_order(mutations: Seq<TxnMutation>) -> bool {
    forall|i: int, j: int|
        #![trigger mutations[i], mutations[j]]
        0 <= i < j < mutations.len() ==> !lex_lt(
            mutations[j].spec_order(),
            mutations[i].spec_order(),
        ) && !mutations[i].matches(mutations[j])
}

proof fn lemma_match_index(mutations: Seq<TxnMutation>, mutation: TxnMutation)
    ensures
        match_index(mutations, mutation) <= mutations.len(),
        match_index(mutations, mutation) < mutations.len() ==> mutations[match_index(
            mutations,
            mutation,
        ) as int].matches(mutation),
        forall|i: int|
            0 <= i < match_index(mutations, mutation) ==> !(#[trigger] mutations[i]).matches(
                mutation,
            ),
    decreases mutations.len(),
{
    if mutations.len() > 0 && !mutations[0].matches(mutation) {
        let rest = mutations.skip(1);
        lemma_match_index(rest, mutation);
        assert forall|i: int| 0 <= i < match_index(mutations, mutation) implies !(
        #[trigger] mutations[i]).matches(mutation) by {
            if i > 0 {
                assert(rest[i - 1] == mutations[i]);
            }
        }
    }
}

proof fn lemma_order_index(mutations: Seq<TxnMutation>, mutation: TxnMutation)
    ensures
        order_index(mutations, mutation) <= mutations.len(),
        order_index(mutations, mutation) < mutations.len() ==> lex_lt(
            mutation.spec_order(),
            mutations[order_index(mutations, mutation) as int].spec_order(),
        ),
        forall|i: int|
            0 <= i < order_index(mutations, mutation) ==> !lex_lt(
                mutation.spec_order(),
                (#[trigger] mutations[i]).spec_order(),
            ),
    decreases mutations.len(),
{
    if mutations.len() > 0 && !lex_lt(mutation.spec_order(), mutations[0].spec_order()) {
        let rest = mutations.skip(1);
        lemma_order_index(rest, mutation);
        assert forall|i: int| 0 <= i < order_index(mutations, mutation) implies !lex_lt(
            mutation.spec_order(),
            (#[trigger] mutations[i]).spec_order(),
        ) by {
            if i > 0 {
                assert(rest[i - 1] == mutations[i]);
            }
        }
    }
}

/// Adding a mutation keeps mutations in order.
pub proof fn lemma_with_mutation_in_order(mutations: Seq<TxnMutation>, mutation: TxnMutation)
    requires
        in_order(mutations),
    ensures
        in_order(with_mutation(mutations, mutation)),
{
    lemma_match_index(mutations, mutation);
    lemma_order_index(mutations, mutation);
    let index = match_index(mutations, mutation) as int;
    let after = with_mutation(mutations, mutation);
    if index < mutations.len() {
        lemma_txn_matches(mutations[index], mutation);
        assert forall|i: int, j: int|
            #![trigger after[i], after[j]]
            0 <= i < j < after.len() implies !lex_lt(after[j].spec_order(), after[i].spec_order())
            && !after[i].matches(after[j]) by {
            assert(!lex_lt(mutations[j].spec_order(), mutations[i].spec_order()));
            lemma_txn_matches(mutations[i], mutations[j]);
            lemma_txn_matches(after[i], after[j]);
            lemma_txn_matches(mutations[i], mutation);
            lemma_txn_matches(mutation, mutations[j]);
        }
    } else {
        let at = order_index(mutations, mutation) as int;
        assert forall|i: int, j: int|
            #![trigger after[i], after[j]]
            0 <= i < j < after.len() implies !lex_lt(after[j].spec_order(), after[i].spec_order())
            && !after[i].matches(after[j]) by {
            let a = if i < at { i } else { i - 1 };
            let b = if j < at { j } else { j - 1 };
            if j == at {
                assert(after[i] == mutations[i]);
            } else if i == at {
                assert(after[j] == mutations[b]);
                lemma_txn_matches(mutations[b], mutation);
                lemma_txn_matches(mutation, mutations[b]);
                if at < b {
                    assert(!lex_lt(mutations[b].spec_order(), mutations[at].spec_order()));
                }
                let (x, y, z) = (
                    mutation.spec_order(),
                    mutations[at].spec_order(),
                    mutations[b].spec_order(),
                );
                lemma_lex_total(x, z);
                lemma_lex_total(y, z);
                if lex_lt(z, x) {
                    lemma_lex_transitive(z, x, y);
                }
                assert(!mutations[b].matches(mutation));
            } else {
                assert(after[i] == mutations[a] && after[j] == mutations[b]);
            }
        }
    }
}

/// Removing a mutation keeps mutations in order.
pub proof fn lemma_without_mutation_in_order(mutations: Seq<TxnMutation>, mutation: TxnMutation)
    requires
        in_order(mutations),
    ensures
        in_order(without_mutation(mutations, mutation)),
{
    lemma_match_index(mutations, mutation);
    let index = match_index(mutations, mutation) as int;
    let after = without_mutation(mutations, mutation);
    if index < mutations.len() {
        assert forall|i: int, j: int|
            #![trigger after[i], after[j]]
            0 <= i < j < after.len() implies !lex_lt(after[j].spec_order(), after[i].spec_order())
            && !after[i].matches(after[j]) by {
            let a = if i < index { i } else { i + 1 };
            let b = if j < index { j } else { j + 1 };
            assert(after[i] == mutations[a] && after[j] == mutations[b]);
        }
    }
}

/// The lock that a transaction is expected to hold, or the creation of the object instead, in order
/// to make `mutation` in the store `store_object_id`.
pub open spec fn required_lock(store_object_id: u64, mutation: Mutation) -> Option<LockKey> {
    match mutation {
        MutationV47::ObjectStore(mutation) => {
            let key = mutation.item.key;
            let object = Some(LockKey::Object { store_object_id, object_id: key.object_id });
            match key.data {
                ObjectKeyData::Child { .. } => object,
                ObjectKeyData::EncryptedChild { .. } => object,
                ObjectKeyData::CasefoldChild { .. } => object,
                ObjectKeyData::Keys => object,
                ObjectKeyData::ExtendedAttribute { .. } => object,
                // Insert implies the caller expects no object with which to race.
                ObjectKeyData::Object => if mutation.op == OperationV32::Insert {
                    None
                } else {
                    object
                },
                ObjectKeyData::Project { project_id, property: ProjectProperty::Limit } => Some(
                    LockKey::ProjectId { store_object_id, project_id },
                ),
                _ => None,
            }
        },
        _ => None,
    }
}

/// The object that `mutation` creates.
pub open spec fn created_object(mutation: Mutation) -> Option<u64> {
    match mutation {
        MutationV47::ObjectStore(mutation) => if mutation.item.key.data is Object && mutation.op
            == OperationV32::Insert {
            Some(mutation.item.key.object_id)
        } else {
            None
        },
        _ => None,
    }
}

/// The mutation does not set the usage of a project outright: usage is all handled by merging
/// deltas.
pub open spec fn merges_usage(mutation: Mutation) -> bool {
    mutation matches MutationV47::ObjectStore(mutation) ==> (mutation.item.key.data matches
        ObjectKeyData::Project { property: ProjectProperty::Usage, .. } ==> mutation.op
        == OperationV32::Merge)
}

/// Checksums of data that is written with a transaction.
pub struct DataChecksums {
    /// The range of the device that was written.
    pub device_range: DeviceRange,
    pub checksums: Vec<u64>,
    /// Whether the range was written for the first time.
    pub first_write: bool,
}

/// The metadata space that a transaction may use.
#[derive(Clone, Copy, Debug, PartialEq, Eq, Structural)]
pub enum MetadataReservation {
    /// There is none: the state before any is reserved, and after the transaction has been dropped.
    Unreserved,
    /// Metadata space for this transaction is being borrowed from the metadata reservation of all
    /// objects.
    Borrowed,
    /// A metadata reservation of so many bytes was made when the transaction was created.
    Reservation(u64),
    /// The metadata space is being _held_ within the reservation for allocations.
    Hold(u64),
}

/// A transaction groups mutation records to be committed as a group.
pub struct Transaction {
    mutations: Vec<TxnMutation>,
    txn_locks: LockKeys,
    new_objects: Vec<(u64, u64)>,
    checksums: Vec<DataChecksums>,
    includes_write: bool,
    metadata_reservation: MetadataReservation,
}

/// The content of a transaction.
#[verifier::ext_equal]
pub struct TxnView {
    /// The mutations that make up the transaction, in order.
    pub mutations: Seq<TxnMutation>,
    /// The locks that the transaction currently holds.
    pub txn_locks: Seq<LockKey>,
    /// The objects that the transaction creates, each with the store that it is in.  No locks are
    /// required for them.
    pub new_objects: Set<(u64, u64)>,
    /// The checksums that should be evaluated when replaying the transaction.
    pub checksums: Seq<DataChecksums>,
    /// The transaction contains data (i.e. it has had extent mutations).
    pub writes: bool,
    /// The reservation for the metadata of the transaction.
    pub metadata_reservation: MetadataReservation,
}

impl TxnView {
    /// The transaction with one more mutation.
    pub open spec fn adding(self, mutation: TxnMutation) -> TxnView {
        TxnView {
            mutations: with_mutation(self.mutations, mutation),
            new_objects: self.new_objects_with(mutation.object_id, mutation.mutation),
            writes: self.writes || mutation.mutation.is_extent(),
            ..self
        }
    }

    /// The transaction with one more mutation, which has no associated object.
    pub open spec fn plus(self, object_id: u64, mutation: Mutation) -> TxnView {
        self.adding(TxnMutation { object_id, mutation, associated_object: None })
    }

    /// The mutation that `mutation` would replace.
    pub open spec fn matching(self, mutation: TxnMutation) -> Option<Mutation> {
        let index = match_index(self.mutations, mutation);
        if index < self.mutations.len() {
            Some(self.mutations[index as int].mutation)
        } else {
            None
        }
    }

    /// The lock that should be held for `mutation`, but is not.
    pub open spec fn missing_lock(self, store_object_id: u64, mutation: Mutation) -> Option<LockKey> {
        match required_lock(store_object_id, mutation) {
            None => None,
            Some(key) => {
                let created = key matches LockKey::Object { object_id, .. }
                    && self.new_objects.contains((store_object_id, object_id));
                if self.txn_locks.contains(key) || created {
                    None
                } else {
                    Some(key)
                }
            },
        }
    }

    /// The objects that this transaction creates once it has `mutation`.
    pub open spec fn new_objects_with(self, store_object_id: u64, mutation: Mutation) -> Set<
        (u64, u64),
    > {
        match created_object(mutation) {
            Some(object_id) => self.new_objects.insert((store_object_id, object_id)),
            None => self.new_objects,
        }
    }

    /// The transaction mutates the record `key` of the store `store_object_id`.
    pub open spec fn has_object_mutation(self, store_object_id: u64, key: ObjectKey) -> bool {
        exists|i: int| #[trigger] self.is_object_mutation(i, store_object_id, key)
    }

    /// The mutation at `index` mutates the record `key` of the store `store_object_id`.
    pub open spec fn is_object_mutation(
        self,
        index: int,
        store_object_id: u64,
        key: ObjectKey,
    ) -> bool {
        &&& 0 <= index < self.mutations.len()
        &&& self.mutations[index].object_id == store_object_id
        &&& self.mutations[index].mutation matches MutationV47::ObjectStore(mutation)
        &&& mutation.item.key.same(key)
    }
}

impl View for Transaction {
    type V = TxnView;

    closed spec fn view(&self) -> TxnView {
        TxnView {
            mutations: self.mutations@,
            txn_locks: self.txn_locks@,
            new_objects: self.new_objects@.to_set(),
            checksums: self.checksums@,
            writes: self.includes_write,
            metadata_reservation: self.metadata_reservation,
        }
    }
}

fn contains_pair(pairs: &Vec<(u64, u64)>, pair: (u64, u64)) -> (found: bool)
    ensures
        found == pairs@.contains(pair),
{
    let mut i: usize = 0;
    while i < pairs.len()
        invariant
            i <= pairs@.len(),
            forall|j: int| 0 <= j < i ==> pairs@[j] != pair,
        decreases pairs@.len() - i,
    {
        if pairs[i].0 == pair.0 && pairs[i].1 == pair.1 {
            assert(pairs@[i as int] == pair);
            return true;
        }
        i += 1;
    }
    false
}

fn remove_pair(pairs: &mut Vec<(u64, u64)>, pair: (u64, u64))
    ensures
        final(pairs)@.to_set() == old(pairs)@.to_set().remove(pair),
{
    let mut kept: Vec<(u64, u64)> = Vec::new();
    let mut i: usize = 0;
    assert(pairs@.take(0).to_set().remove(pair) =~= kept@.to_set());
    while i < pairs.len()
        invariant
            i <= pairs@.len(),
            pairs@ == old(pairs)@,
            kept@.to_set() == pairs@.take(i as int).to_set().remove(pair),
        decreases pairs@.len() - i,
    {
        let ghost before = kept@;
        let p = (pairs[i].0, pairs[i].1);
        if !(p.0 == pair.0 && p.1 == pair.1) {
            kept.push(p);
        }
        proof {
            let taken = pairs@.take(i as int);
            assert(pairs@.take(i + 1) =~= taken.push(p));
            lemma_push_to_set(taken, p);
            lemma_push_to_set(before, p);
            assert(kept@.to_set() =~= pairs@.take(i + 1).to_set().remove(pair));
        }
        i += 1;
    }
    assert(pairs@.take(pairs@.len() as int) =~= pairs@);
    *pairs = kept;
}

proof fn lemma_push_to_set<T>(s: Seq<T>, x: T)
    ensures
        s.push(x).to_set() == s.to_set().insert(x),
{
    assert forall|y: T| s.push(x).to_set().contains(y) <==> s.to_set().insert(x).contains(y) by {
        if s.contains(y) {
            let i = choose|i: int| 0 <= i < s.len() && s[i] == y;
            assert(s.push(x)[i] == y);
        }
        if y == x {
            assert(s.push(x)[s.len() as int] == y);
        }
    }
    assert(s.push(x).to_set() =~= s.to_set().insert(x));
}

impl Transaction {
    /// Mutations are in order, and no two of them match.
    pub open spec fn wf(self) -> bool {
        in_order(self@.mutations)
    }

    /// Creates a new transaction that holds `txn_locks`, which can be upgraded to write locks at
    /// commit time.
    pub fn new(txn_locks: LockKeys) -> (transaction: Self)
        ensures
            transaction.wf(),
            transaction@.mutations == Seq::<TxnMutation>::empty(),
            transaction@.txn_locks == txn_locks@,
            transaction@.new_objects == Set::<(u64, u64)>::empty(),
            transaction@.checksums == Seq::<DataChecksums>::empty(),
            !transaction@.writes,
            transaction@.metadata_reservation == MetadataReservation::Unreserved,
    {
        let transaction = Transaction {
            mutations: Vec::new(),
            txn_locks,
            new_objects: Vec::new(),
            checksums: Vec::new(),
            includes_write: false,
            metadata_reservation: MetadataReservation::Unreserved,
        };
        assert(transaction@.new_objects =~= Set::<(u64, u64)>::empty());
        transaction
    }

    /// Returns the mutations that make up this transaction.
    pub fn mutations(&self) -> (mutations: &Vec<TxnMutation>)
        ensures
            mutations@ == self@.mutations,
    {
        &self.mutations
    }

    /// Takes the mutations out of this transaction.
    pub fn take_mutations(&mut self) -> (mutations: Vec<TxnMutation>)
        ensures
            mutations@ == old(self)@.mutations,
            final(self).wf(),
            final(self)@.mutations == Seq::<TxnMutation>::empty(),
            final(self)@.new_objects == Set::<(u64, u64)>::empty(),
            final(self)@.txn_locks == old(self)@.txn_locks,
            final(self)@.checksums == old(self)@.checksums,
            final(self)@.writes == old(self)@.writes,
            final(self)@.metadata_reservation == old(self)@.metadata_reservation,
    {
        self.new_objects = Vec::new();
        assert(self@.new_objects =~= Set::<(u64, u64)>::empty());
        let mut mutations: Vec<TxnMutation> = Vec::new();
        core::mem::swap(&mut mutations, &mut self.mutations);
        mutations
    }

    /// Takes the locks out of this transaction, so that they can be released.
    pub fn take_locks(&mut self) -> (txn_locks: LockKeys)
        ensures
            txn_locks@ == old(self)@.txn_locks,
            final(self)@.txn_locks == Seq::<LockKey>::empty(),
            final(self)@.mutations == old(self)@.mutations,
            final(self)@.new_objects == old(self)@.new_objects,
            final(self)@.checksums == old(self)@.checksums,
            final(self)@.writes == old(self)@.writes,
            final(self)@.metadata_reservation == old(self)@.metadata_reservation,
    {
        let mut txn_locks = LockKeys::Empty;
        core::mem::swap(&mut txn_locks, &mut self.txn_locks);
        txn_locks
    }

    /// Copies the keys of the locks that this transaction holds.
    pub fn lock_keys(&self) -> (txn_locks: LockKeys)
        ensures
            txn_locks@ == self@.txn_locks,
    {
        self.txn_locks.duplicate()
    }

    /// Finds the mutation that `mutation` matches.
    fn find(&self, mutation: &TxnMutation) -> (index: usize)
        ensures
            index == match_index(self.mutations@, *mutation),
            index <= self.mutations@.len(),
    {
        proof {
            lemma_match_index(self.mutations@, *mutation);
        }
        let order = mutation.order();
        let never = matches!(mutation.mutation, MutationV47::UpdateMutationsKey(_));
        let mut i: usize = 0;
        while i < self.mutations.len()
            invariant
                i <= self.mutations@.len(),
                order@ == mutation.spec_order(),
                never == (mutation.mutation is UpdateMutationsKey),
                i <= match_index(self.mutations@, *mutation) <= self.mutations@.len(),
                match_index(self.mutations@, *mutation) < self.mutations@.len()
                    ==> self.mutations@[match_index(self.mutations@, *mutation) as int].matches(
                    *mutation,
                ),
                forall|j: int|
                    0 <= j < match_index(self.mutations@, *mutation) ==> !(
                    #[trigger] self.mutations@[j]).matches(*mutation),
            decreases self.mutations@.len() - i,
        {
            let other = self.mutations[i].order();
            proof {
                lemma_txn_matches(self.mutations@[i as int], *mutation);
                lemma_txn_matches(*mutation, self.mutations@[i as int]);
            }
            if !never && compare(&other, &order) == Comparison::Same {
                return i;
            }
            i += 1;
        }
        i
    }

    /// Finds the place of `mutation` in order.
    fn place(&self, mutation: &TxnMutation) -> (index: usize)
        ensures
            index == order_index(self.mutations@, *mutation),
            index <= self.mutations@.len(),
    {
        proof {
            lemma_order_index(self.mutations@, *mutation);
        }
        let order = mutation.order();
        let mut i: usize = 0;
        while i < self.mutations.len()
            invariant
                i <= self.mutations@.len(),
                order@ == mutation.spec_order(),
                i <= order_index(self.mutations@, *mutation) <= self.mutations@.len(),
                order_index(self.mutations@, *mutation) < self.mutations@.len() ==> lex_lt(
                    mutation.spec_order(),
                    self.mutations@[order_index(self.mutations@, *mutation) as int].spec_order(),
                ),
                forall|j: int|
                    0 <= j < order_index(self.mutations@, *mutation) ==> !lex_lt(
                        mutation.spec_order(),
                        (#[trigger] self.mutations@[j]).spec_order(),
                    ),
            decreases self.mutations@.len() - i,
        {
            let other = self.mutations[i].order();
            if compare(&order, &other) == Comparison::Before {
                return i;
            }
            i += 1;
        }
        i
    }

    /// Adds a mutation to this transaction, which holds the lock that the mutation calls for.  If the
    /// mutation already exists, it is replaced and the old mutation is returned.
    pub fn add(&mut self, object_id: u64, mutation: Mutation) -> (replaced: Option<Mutation>)
        requires
            old(self).wf(),
            object_id != INVALID_OBJECT_ID,
            merges_usage(mutation),
            old(self)@.missing_lock(object_id, mutation) is None,
        ensures
            final(self).wf(),
            final(self)@ == old(self)@.plus(object_id, mutation),
            replaced == old(self)@.matching(
                (TxnMutation { object_id, mutation, associated_object: None }),
            ),
    {
        self.add_with_object(object_id, mutation, None)
    }

    /// Adds a mutation with an associated object. If the mutation already exists, it is replaced
    /// and the old mutation is returned.
    pub fn add_with_object(
        &mut self,
        object_id: u64,
        mutation: Mutation,
        associated_object: Option<u64>,
    ) -> (replaced: Option<Mutation>)
        requires
            old(self).wf(),
            object_id != INVALID_OBJECT_ID,
            merges_usage(mutation),
            old(self)@.missing_lock(object_id, mutation) is None,
        ensures
            final(self).wf(),
            final(self)@ == old(self)@.adding(
                (TxnMutation { object_id, mutation, associated_object }),
            ),
            replaced == old(self)@.matching(
                (TxnMutation { object_id, mutation, associated_object }),
            ),
    {
        if let MutationV47::ObjectStore(ObjectStoreMutationV47 { item, .. }) = &mutation {
            if let ObjectKeyData::Attribute(_, AttributeKey::Extent(_)) = &item.key.data {
                self.includes_write = true;
            }
        }
        let txn_mutation = TxnMutation { object_id, mutation, associated_object };
        let _missing = self.verify_locks(&txn_mutation);
        assert(_missing is None);
        proof {
            lemma_with_mutation_in_order(self.mutations@, txn_mutation);
        }
        let index: usize = self.find(&txn_mutation);
        if index < self.mutations.len() {
            let old_mutation = self.mutations.remove(index);
            self.mutations.insert(index, txn_mutation);
            assert(self.mutations@ =~= old(self).mutations@.update(index as int, txn_mutation));
            Some(old_mutation.mutation)
        } else {
            let at: usize = self.place(&txn_mutation);
            self.mutations.insert(at, txn_mutation);
            None
        }
    }

    /// Removes a mutation that matches `mutation`.
    pub fn remove(&mut self, object_id: u64, mutation: Mutation)
        requires
            old(self).wf(),
        ensures
            final(self).wf(),
            ({
                let txn_mutation = TxnMutation { object_id, mutation, associated_object: None };
                let found = match_index(old(self)@.mutations, txn_mutation) < old(
                    self,
                )@.mutations.len();
                &&& final(self)@.mutations == without_mutation(
                    old(self)@.mutations,
                    txn_mutation,
                )
                &&& final(self)@.new_objects == (match created_object(mutation) {
                    Some(new_object_id) if found => old(self)@.new_objects.remove(
                        (object_id, new_object_id),
                    ),
                    _ => old(self)@.new_objects,
                })
            }),
            final(self)@.txn_locks == old(self)@.txn_locks,
            final(self)@.checksums == old(self)@.checksums,
            final(self)@.writes == old(self)@.writes,
            final(self)@.metadata_reservation == old(self)@.metadata_reservation,
    {
        let txn_mutation = TxnMutation { object_id, mutation, associated_object: None };
        let index: usize = self.find(&txn_mutation);
        proof {
            lemma_without_mutation_in_order(self.mutations@, txn_mutation);
        }
        if index < self.mutations.len() {
            let _ = self.mutations.remove(index);
            if let MutationV47::ObjectStore(object_mutation) = &txn_mutation.mutation {
                if let ObjectKeyData::Object = &object_mutation.item.key.data {
                    if object_mutation.op == OperationV32::Insert {
                        let new_object_id: u64 = object_mutation.item.key.object_id;
                        remove_pair(&mut self.new_objects, (object_id, new_object_id));
                    }
                }
            }
        }
    }

    /// Checks that the lock that `mutation` calls for is held, unless the transaction creates the
    /// object, and returns it if it is not.  Notes the object that `mutation` creates.
    pub fn verify_locks(&mut self, mutation: &TxnMutation) -> (missing: Option<LockKey>)
        requires
            merges_usage(mutation.mutation),
        ensures
            missing == old(self)@.missing_lock(mutation.object_id, mutation.mutation),
            final(self)@.new_objects == old(self)@.new_objects_with(
                mutation.object_id,
                mutation.mutation,
            ),
            final(self)@.mutations == old(self)@.mutations,
            final(self)@.txn_locks == old(self)@.txn_locks,
            final(self)@.checksums == old(self)@.checksums,
            final(self)@.writes == old(self)@.writes,
            final(self)@.metadata_reservation == old(self)@.metadata_reservation,
    {
        // Searching through the locks is fine given the small set that these locks usually comprise.
        let store_object_id: u64 = mutation.object_id;
        if let MutationV47::ObjectStore(ObjectStoreMutationV47 { item, op }) = &mutation.mutation {
            let object_id: u64 = item.key.object_id;
            match &item.key.data {
                ObjectKeyData::Child { .. }
                | ObjectKeyData::EncryptedChild { .. }
                | ObjectKeyData::CasefoldChild { .. }
                | ObjectKeyData::Keys
                | ObjectKeyData::ExtendedAttribute { .. } => {
                    self.missing_object_lock(store_object_id, object_id)
                },
                ObjectKeyData::Object => match op {
                    // Insert implies the caller expects no object with which to race
                    OperationV32::Insert => {
                        let pair = (store_object_id, object_id);
                        if !contains_pair(&self.new_objects, pair) {
                            self.new_objects.push(pair);
                            proof {
                                lemma_push_to_set(old(self).new_objects@, pair);
                            }
                        } else {
                            assert(self@.new_objects.insert(pair) =~= self@.new_objects);
                        }
                        None
                    },
                    OperationV32::Merge | OperationV32::ReplaceOrInsert => {
                        self.missing_object_lock(store_object_id, object_id)
                    },
                },
                ObjectKeyData::Project { project_id, property: ProjectProperty::Limit } => {
                    let key = LockKey::ProjectId { store_object_id, project_id: *project_id };
                    if self.txn_locks.contains(&key) {
                        None
                    } else {
                        Some(key)
                    }
                },
                // Merges of usage are all handled like atomic +/- and serialized by the tree locks.
                ObjectKeyData::Project { property: ProjectProperty::Usage, .. }
                | ObjectKeyData::Attribute(..)
                | ObjectKeyData::GraveyardEntry { .. }
                | ObjectKeyData::GraveyardAttributeEntry { .. } => None,
            }
        } else {
            None
        }
    }

    fn missing_object_lock(&self, store_object_id: u64, object_id: u64) -> (missing: Option<LockKey>)
        ensures
            missing == (if self@.txn_locks.contains(LockKey::Object { store_object_id, object_id })
                || self@.new_objects.contains((store_object_id, object_id)) {
                None
            } else {
                Some(LockKey::Object { store_object_id, object_id })
            }),
    {
        let key = LockKey::object(store_object_id, object_id);
        if self.txn_locks.contains(&key) || contains_pair(
            &self.new_objects,
            (store_object_id, object_id),
        ) {
            None
        } else {
            Some(key)
        }
    }

    /// Notes the metadata space that this transaction may use.
    pub fn set_metadata_reservation(&mut self, metadata_reservation: MetadataReservation)
        ensures
            final(self)@ == (TxnView { metadata_reservation, ..old(self)@ }),
    {
        self.metadata_reservation = metadata_reservation;
    }

    /// Takes the metadata space out of this transaction, so that it can be given back.
    pub fn take_metadata_reservation(&mut self) -> (metadata_reservation: MetadataReservation)
        ensures
            metadata_reservation == old(self)@.metadata_reservation,
            final(self)@ == (TxnView {
                metadata_reservation: MetadataReservation::Unreserved,
                ..old(self)@
            }),
    {
        let metadata_reservation = self.metadata_reservation;
        self.metadata_reservation = MetadataReservation::Unreserved;
        metadata_reservation
    }

    pub fn add_checksum(
        &mut self,
        device_range: DeviceRange,
        checksums: Vec<u64>,
        first_write: bool,
    )
        ensures
            final(self)@.checksums == old(self)@.checksums.push(
                (DataChecksums { device_range, checksums, first_write }),
            ),
            final(self)@.mutations == old(self)@.mutations,
            final(self)@.new_objects == old(self)@.new_objects,
            final(self)@.txn_locks == old(self)@.txn_locks,
            final(self)@.writes == old(self)@.writes,
            final(self)@.metadata_reservation == old(self)@.metadata_reservation,
    {
        self.checksums.push(DataChecksums { device_range, checksums, first_write });
    }

    pub fn includes_write(&self) -> (includes: bool)
        ensures
            includes == self@.writes,
    {
        self.includes_write
    }

    /// Returns the checksums that should be evaluated when replaying this transaction.
    pub fn checksums(&self) -> (checksums: &Vec<DataChecksums>)
        ensures
            checksums@ == self@.checksums,
    {
        &self.checksums
    }

    /// Takes the checksums out of this transaction.
    pub fn take_checksums(&mut self) -> (checksums: Vec<DataChecksums>)
        ensures
            checksums@ == old(self)@.checksums,
            final(self)@.checksums == Seq::<DataChecksums>::empty(),
            final(self)@.mutations == old(self)@.mutations,
            final(self)@.new_objects == old(self)@.new_objects,
            final(self)@.txn_locks == old(self)@.txn_locks,
            final(self)@.writes == old(self)@.writes,
            final(self)@.metadata_reservation == old(self)@.metadata_reservation,
    {
        let mut checksums: Vec<DataChecksums> = Vec::new();
        core::mem::swap(&mut checksums, &mut self.checksums);
        checksums
    }

    /// Returns true if this transaction has no mutations.
    pub fn is_empty(&self) -> (empty: bool)
        ensures
            empty == (self@.mutations.len() == 0),
    {
        self.mutations.len() == 0
    }

    /// Searches for an existing object mutation within the transaction that has the given key and
    /// returns it if found.
    pub fn get_object_mutation(
        &self,
        store_object_id: u64,
        key: ObjectKey,
    ) -> (mutation: Option<&ObjectStoreMutation>)
        ensures
            match mutation {
                Some(mutation) => exists|i: int|
                    #[trigger] self@.is_object_mutation(i, store_object_id, key)
                        && self@.mutations[i].mutation == MutationV47::ObjectStore(*mutation),
                None => !self@.has_object_mutation(store_object_id, key),
            },
    {
        let wanted = TxnMutation {
            object_id: store_object_id,
            mutation: MutationV47::insert_object(key, ObjectValue::Deleted),
            associated_object: None,
        };
        proof {
            lemma_match_index(self.mutations@, wanted);
        }
        let index: usize = self.find(&wanted);
        if index < self.mutations.len() {
            if let MutationV47::ObjectStore(mutation) = &self.mutations[index].mutation {
                assert(self@.is_object_mutation(index as int, store_object_id, key));
                Some(mutation)
            } else {
                None
            }
        } else {
            None
        }
    }
}

impl LockManager {
    /// Gives up the locks of a transaction that is dropped.  Returns the wakers of the requests that
    /// are granted.
    pub fn drop_transaction(&mut self, transaction: &mut Transaction) -> (woken: Vec<LockWaker>)
        requires
            old(self).wf(),
            droppable(*old(self), old(transaction)@.txn_locks, LockState::WriteLock),
        ensures
            final(self).wf(),
            final(self).requests() == old(self).requests(),
            final(self).granted() == old(self).granted() + woken@,
            (final(self)@, woken@) == drop_run(
                old(self)@,
                old(transaction)@.txn_locks,
                LockState::WriteLock,
            ),
            final(transaction)@.txn_locks == Seq::<LockKey>::empty(),
            final(transaction)@.mutations == old(transaction)@.mutations,
            final(transaction)@.new_objects == old(transaction)@.new_objects,
            final(transaction)@.checksums == old(transaction)@.checksums,
            final(transaction)@.writes == old(transaction)@.writes,
            final(transaction)@.metadata_reservation == old(transaction)@.metadata_reservation,
    {
        self.drop_write_locks(transaction.take_locks())
    }

    /// Starts to upgrade the locks of a transaction that is about to be committed.
    pub fn commit_prepare(transaction: &Transaction) -> (prepare: CommitPrepare)
        ensures
            prepare.wf(),
            prepare.keys() == transaction@.txn_locks,
            prepare.upgraded() == 0,
            prepare.waker() is None,
    {
        CommitPrepare::new(transaction.lock_keys())
    }
}

/// A mutation that was added to a transaction is found in it.
pub proof fn lemma_added_is_found(mutations: Seq<TxnMutation>, mutation: TxnMutation)
    requires
        in_order(mutations),
        !(mutation.mutation is UpdateMutationsKey),
    ensures
        ({
            let after = with_mutation(mutations, mutation);
            let index = match_index(after, mutation);
            index < after.len() && after[index as int] == mutation
        }),
{
    let after = with_mutation(mutations, mutation);
    lemma_match_index(mutations, mutation);
    lemma_order_index(mutations, mutation);
    lemma_match_index(after, mutation);
    lemma_with_mutation_in_order(mutations, mutation);
    let at = if match_index(mutations, mutation) < mutations.len() {
        match_index(mutations, mutation) as int
    } else {
        order_index(mutations, mutation) as int
    };
    assert(after[at] == mutation);
    lemma_txn_matches(mutation, mutation);
    let index = match_index(after, mutation) as int;
    if index < at {
        assert(after[index].matches(after[at]));
    }
    assert(index == at);
}

/// Adding a mutation that matches one which is there already replaces it: nothing else changes.
pub proof fn lemma_matching_mutation_replaces(
    mutations: Seq<TxnMutation>,
    first: TxnMutation,
    second: TxnMutation,
)
    requires
        in_order(mutations),
        first.matches(second),
    ensures
        ({
            let once = with_mutation(mutations, first);
            let twice = with_mutation(once, second);
            &&& twice == once.update(match_index(once, first) as int, second)
            &&& twice.len() == once.len()
        }),
{
    let once = with_mutation(mutations, first);
    lemma_txn_matches(first, second);
    lemma_added_is_found(mutations, first);
    lemma_match_index(once, first);
    lemma_match_index(once, second);
    let (i, j) = (match_index(once, first) as int, match_index(once, second) as int);
    assert(once[i].matches(second));
    if j < i {
        lemma_txn_matches(once[j], second);
        lemma_txn_matches(once[j], first);
        assert(!once[j].matches(first));
    }
    assert(i == j);
}

/// Removing a mutation that was not there before it was added restores the mutations.
pub proof fn lemma_remove_undoes_add(mutations: Seq<TxnMutation>, mutation: TxnMutation)
    requires
        in_order(mutations),
        !(mutation.mutation is UpdateMutationsKey),
        match_index(mutations, mutation) == mutations.len(),
    ensures
        without_mutation(with_mutation(mutations, mutation), mutation) == mutations,
{
    let after = with_mutation(mutations, mutation);
    lemma_added_is_found(mutations, mutation);
    lemma_order_index(mutations, mutation);
    lemma_match_index(mutations, mutation);
    lemma_match_index(after, mutation);
    let at = order_index(mutations, mutation) as int;
    let index = match_index(after, mutation) as int;
    assert(after[at] == mutation);
    lemma_txn_matches(mutation, mutation);
    if at < index {
        assert(!after[at].matches(mutation));
    } else if index < at {
        assert(after[index] == mutations[index]);
    }
    assert(after.remove(at) =~= mutations);
}

/// Once a transaction has inserted an object, it needs no lock in order to change that object.
pub proof fn lemma_created_object_needs_no_lock(
    before: TxnView,
    creation: TxnMutation,
    mutation: ObjectStoreMutation,
)
    requires
        created_object(creation.mutation) == Some(mutation.item.key.object_id),
        !(mutation.item.key.data is Project),
    ensures
        before.adding(creation).missing_lock(
            creation.object_id,
            MutationV47::ObjectStore(mutation),
        ) is None,
{
}

/// A value, or a reference to one.
pub enum BorrowedOrOwned<'a, T> {
    Borrowed(&'a T),
    Owned(T),
}

impl<'a, T> BorrowedOrOwned<'a, T> {
    /// The value.
    pub open spec fn value(self) -> T {
        match self {
            BorrowedOrOwned::Borrowed(value) => *value,
            BorrowedOrOwned::Owned(value) => value,
        }
    }

    /// Returns the value.
    pub fn get(&self) -> (value: &T)
        ensures
            *value == self.value(),
    {
        match self {
            BorrowedOrOwned::Borrowed(value) => value,
            BorrowedOrOwned::Owned(value) => value,
        }
    }
}

impl TxnView {
    /// The transaction holds `mutation` for the store or other object `object_id`.
    pub open spec fn holds(self, object_id: u64, mutation: Mutation) -> bool {
        exists|i: int|
            0 <= i < self.mutations.len() && (#[trigger] self.mutations[i]).object_id == object_id
                && self.mutations[i].mutation == mutation
    }
}

/// A transaction holds a mutation that was added to it, and of those that it held before all but the ones
/// that the new one stands for; it holds no others.  Its locks, checksums and reservation stay.
pub proof fn lemma_added_is_held(before: TxnView, object_id: u64, mutation: Mutation)
    requires
        in_order(before.mutations),
    ensures
        in_order(before.plus(object_id, mutation).mutations),
        before.plus(object_id, mutation).holds(object_id, mutation),
        forall|store: u64, other: Mutation| #[trigger]
            before.plus(object_id, mutation).holds(store, other) <==> (store == object_id && other
                == mutation) || (before.holds(store, other) && !(store == object_id && other.matches(
                mutation,
            ))),
        before.plus(object_id, mutation).txn_locks == before.txn_locks,
        before.plus(object_id, mutation).checksums == before.checksums,
        before.plus(object_id, mutation).metadata_reservation == before.metadata_reservation,
{
    let added = TxnMutation { object_id, mutation, associated_object: None };
    let old_list = before.mutations;
    let after = before.plus(object_id, mutation);
    let list = after.mutations;
    lemma_match_index(old_list, added);
    lemma_order_index(old_list, added);
    lemma_with_mutation_in_order(old_list, added);
    let m = match_index(old_list, added) as int;
    let o = order_index(old_list, added) as int;
    let at = if m < old_list.len() {
        m
    } else {
        o
    };
    assert(list[at] == added);
    assert forall|store: u64, other: Mutation| #[trigger] after.holds(store, other) <==> (store
        == object_id && other == mutation) || (before.holds(store, other) && !(store == object_id
        && other.matches(mutation))) by {
        if after.holds(store, other) {
            let i = choose|i: int|
                0 <= i < list.len() && (#[trigger] list[i]).object_id == store && list[i].mutation
                    == other;
            if i != at {
                let k = if m < old_list.len() || i < at {
                    i
                } else {
                    i - 1
                };
                assert(old_list[k] == list[i]);
                assert(before.holds(store, other));
                if old_list[k].matches(added) {
                    lemma_txn_matches(old_list[k], added);
                    if m < old_list.len() {
                        lemma_txn_matches(old_list[m], added);
                        if k < m {
                            assert(!old_list[k].matches(added));
                        } else {
                            lemma_txn_matches(old_list[m], old_list[k]);
                            assert(old_list[m].matches(old_list[k]));
                        }
                    } else {
                        assert(!old_list[k].matches(added));
                    }
                }
            }
        }
        if before.holds(store, other) && !(store == object_id && other.matches(mutation)) {
            let k = choose|k: int|
                0 <= k < old_list.len() && (#[trigger] old_list[k]).object_id == store
                    && old_list[k].mutation == other;
            assert(!old_list[k].matches(added));
            if m < old_list.len() {
                assert(k != m);
                assert(list[k] == old_list[k]);
            } else if k < o {
                assert(list[k] == old_list[k]);
            } else {
                assert(list[k + 1] == old_list[k]);
            }
        }
    }
}

/// Two mutations of records stand for each other exactly if they are for the same object and say the same of
/// it; whatever they do to the record does not matter.
pub proof fn lemma_mutations_are_known_by_their_key(a: ObjectStoreMutation, b: ObjectStoreMutation)
    ensures
        MutationV47::ObjectStore(a).matches(MutationV47::ObjectStore(b)) <==> a.item.key.object_id
            == b.item.key.object_id && a.item.key.data.same(b.item.key.data),
        a.item.key == b.item.key ==> MutationV47::ObjectStore(a).matches(MutationV47::ObjectStore(b)),
{
}

/// Mutations of different sorts never stand for each other, and neither do two new keys.
pub proof fn lemma_mutations_of_different_sorts_stay_apart(
    mutation: ObjectStoreMutation,
    bytes: Vec<u8>,
    allocation: AllocatorMutationV32,
    other_allocation: AllocatorMutationV32,
    key: UpdateMutationsKeyV40,
    other_key: UpdateMutationsKeyV40,
    a: u64,
    b: u64,
)
    ensures
        !MutationV47::UpdateMutationsKey(key).matches(MutationV47::UpdateMutationsKey(other_key)),
        MutationV47::Allocator(allocation).matches(MutationV47::Allocator(other_allocation))
            <==> allocation == other_allocation,
        MutationV47::CreateInternalDir(a).matches(MutationV47::CreateInternalDir(b)) <==> a == b,
        MutationV47::UpdateBorrowed(a).matches(MutationV47::UpdateBorrowed(b)) <==> a == b,
        MutationV47::BeginFlush.matches(MutationV47::BeginFlush),
        MutationV47::EndFlush.matches(MutationV47::EndFlush),
        MutationV47::DeleteVolume.matches(MutationV47::DeleteVolume),
        !MutationV47::BeginFlush.matches(MutationV47::EndFlush),
        !MutationV47::ObjectStore(mutation).matches(MutationV47::Allocator(allocation)),
        !MutationV47::ObjectStore(mutation).matches(MutationV47::EncryptedObjectStore(bytes)),
        !MutationV47::UpdateBorrowed(a).matches(MutationV47::CreateInternalDir(a)),
{
}

/// Adding a mutation returns the one that it replaces: one that the transaction held, for the same object, and
/// that the new one stands for.  If it held none, nothing is returned.
pub proof fn lemma_adding_returns_what_was_replaced(before: TxnView, added: TxnMutation)
    ensures
        before.matching(added) matches Some(replaced) ==> before.holds(added.object_id, replaced)
            && replaced.matches(added.mutation),
        before.matching(added) is None <==> (forall|other: Mutation| #[trigger]
            before.holds(added.object_id, other) ==> !other.matches(added.mutation)),
        before.matching(added) is Some ==> with_mutation(before.mutations, added).len()
            == before.mutations.len(),
        before.matching(added) is None ==> with_mutation(before.mutations, added).len()
            == before.mutations.len() + 1,
{
    let list = before.mutations;
    lemma_match_index(list, added);
    lemma_order_index(list, added);
    let m = match_index(list, added) as int;
    if m < list.len() {
        assert(before.holds(added.object_id, list[m].mutation));
    } else {
        assert forall|other: Mutation| #[trigger] before.holds(added.object_id, other) implies !other.matches(
            added.mutation,
        ) by {
            let k = choose|k: int|
                0 <= k < list.len() && (#[trigger] list[k]).object_id == added.object_id
                    && list[k].mutation == other;
            assert(!list[k].matches(added));
        }
    }
}

/// Removing a mutation takes away the one that it stands for, and no other.
pub proof fn lemma_removed_is_not_held(before: TxnView, after: TxnView, removed: TxnMutation)
    requires
        in_order(before.mutations),
        after.mutations == without_mutation(before.mutations, removed),
    ensures
        forall|store: u64, other: Mutation| #[trigger]
            after.holds(store, other) <==> before.holds(store, other) && !(store == removed.object_id
                && other.matches(removed.mutation)),
{
    let list = before.mutations;
    lemma_match_index(list, removed);
    let m = match_index(list, removed) as int;
    assert forall|store: u64, other: Mutation| #[trigger] after.holds(store, other) <==> before.holds(
        store,
        other,
    ) && !(store == removed.object_id && other.matches(removed.mutation)) by {
        if after.holds(store, other) {
            let i = choose|i: int|
                0 <= i < after.mutations.len() && (#[trigger] after.mutations[i]).object_id == store
                    && after.mutations[i].mutation == other;
            let k = if m < list.len() && i >= m {
                i + 1
            } else {
                i
            };
            assert(list[k] == after.mutations[i]);
            if list[k].matches(removed) {
                if m < list.len() {
                    lemma_txn_matches(list[k], removed);
                    lemma_txn_matches(list[m], removed);
                    lemma_txn_matches(list[m], list[k]);
                    lemma_txn_matches(list[k], list[m]);
                    assert(k != m);
                    if k < m {
                        assert(list[k].matches(list[m]));
                    } else {
                        assert(list[m].matches(list[k]));
                    }
                }
            }
        }
        if before.holds(store, other) && !(store == removed.object_id && other.matches(
            removed.mutation,
        )) {
            let k = choose|k: int|
                0 <= k < list.len() && (#[trigger] list[k]).object_id == store && list[k].mutation
                    == other;
            assert(!list[k].matches(removed));
            if m < list.len() && k > m {
                assert(after.mutations[k - 1] == list[k]);
            } else {
                assert(after.mutations[k] == list[k]);
            }
        }
    }
}

/// A transaction creates an object exactly by inserting the record of the object itself; it then counts as
/// created in the store that it was inserted in, and in no other.  Nothing else creates an object.
pub proof fn lemma_inserting_an_object_creates_it(before: TxnView, object_id: u64, mutation: Mutation)
    ensures
        ({
            let after = before.plus(object_id, mutation);
            &&& forall|store: u64, id: u64| #[trigger]
                after.new_objects.contains((store, id)) <==> before.new_objects.contains((store, id))
                    || (store == object_id && (mutation matches MutationV47::ObjectStore(m)
                    && m.op == OperationV32::Insert && m.item.key.data is Object
                    && m.item.key.object_id == id))
        }),
{
}

/// A transaction includes a write exactly if an extent was added to it, or it included one before.
pub proof fn lemma_extents_are_writes(before: TxnView, object_id: u64, mutation: Mutation)
    ensures
        before.plus(object_id, mutation).writes <==> before.writes || (mutation matches
            MutationV47::ObjectStore(m) && (m.item.key.data matches ObjectKeyData::Attribute(_, key)
            && key is Extent)),
{
}

/// Changing or deleting an object, its keys, its children or its extended attributes calls for the lock on
/// that object, unless the transaction created it; a limit calls for the lock on its project.  Inserting an
/// object, and records of attributes, of the graveyard and of usage, call for none.
pub proof fn lemma_changes_call_for_their_lock(txn: TxnView, store: u64, mutation: ObjectStoreMutation)
    ensures
        ({
            let id = mutation.item.key.object_id;
            let missing = txn.missing_lock(store, MutationV47::ObjectStore(mutation));
            let object_lock = LockKey::Object { store_object_id: store, object_id: id };
            let may_change = txn.txn_locks.contains(object_lock) || txn.new_objects.contains((store, id));
            let data = mutation.item.key.data;
            &&& data is Object && mutation.op != OperationV32::Insert ==> missing == (if may_change {
                None
            } else {
                Some(object_lock)
            })
            &&& data is Object && mutation.op == OperationV32::Insert ==> missing is None
            &&& data is Keys || data is Child || data is EncryptedChild || data is CasefoldChild
                || data is ExtendedAttribute ==> missing == (if may_change {
                None
            } else {
                Some(object_lock)
            })
            &&& data is Attribute || data is GraveyardEntry || data is GraveyardAttributeEntry
                ==> missing is None
            &&& data matches ObjectKeyData::Project { project_id, property } ==> {
                let project_lock = LockKey::ProjectId { store_object_id: store, project_id };
                missing == (if property == ProjectProperty::Limit && !txn.txn_locks.contains(
                    project_lock,
                ) {
                    Some(project_lock)
                } else {
                    None
                })
            }
        }),
{
}

/// Only mutations of records call for locks.
pub proof fn lemma_other_mutations_call_for_no_lock(txn: TxnView, store: u64, mutation: Mutation)
    requires
        !(mutation is ObjectStore),
    ensures
        txn.missing_lock(store, mutation) is None,
{
}

/// Usage can only be merged, and everything else can be changed by any operation.
pub proof fn lemma_usage_is_merged(mutation: ObjectStoreMutation)
    ensures
        mutation.op == OperationV32::Merge ==> merges_usage(MutationV47::ObjectStore(mutation)),
        mutation.op != OperationV32::Merge ==> (merges_usage(MutationV47::ObjectStore(mutation)) <==> !(
        mutation.item.key.data matches ObjectKeyData::Project { property, .. } && property
            == ProjectProperty::Usage)),
{
}

/// What is made to insert, replace or merge a record does that to just that record.
pub proof fn lemma_object_mutation_is_of_its_record(key: ObjectKey, value: ObjectValue, op: Operation)
    ensures
        ({
            let mutation = MutationV47::object_mutation(key, value, op);
            &&& mutation is ObjectStore
            &&& mutation->ObjectStore_0.item.key == key
            &&& mutation->ObjectStore_0.item.value == value
            &&& mutation->ObjectStore_0.item.sequence == 0
            &&& mutation->ObjectStore_0.op == op
        }),
{
}

/// Mutations of records are in the order of the keys of these records: one comes before another where its key does, and
/// they are equal where both change the same record.
pub proof fn lemma_mutations_are_ordered_by_key(a: ObjectStoreMutation, b: ObjectStoreMutation)
    ensures
        ObjectStoreMutationV47::obeys_eq_spec() && ObjectStoreMutationV47::obeys_partial_cmp_spec(),
        a.partial_cmp_spec(&b) == Some(Ordering::Less) <==> lex_lt(
            a.item.key.spec_order(),
            b.item.key.spec_order(),
        ),
        a.partial_cmp_spec(&b) == Some(Ordering::Greater) <==> b.partial_cmp_spec(&a) == Some(Ordering::Less),
        a.partial_cmp_spec(&b) == Some(Ordering::Equal) <==> a.eq_spec(&b),
        a.eq_spec(&b) <==> a.item.key.same(b.item.key),
        a.item.key.object_id < b.item.key.object_id ==> a.partial_cmp_spec(&b) == Some(Ordering::Less),
{
    lemma_lex_total(a.item.key.spec_order(), b.item.key.spec_order());
    lemma_key_order_injective(a.item.key, b.item.key);
    lemma_records_of_an_object_stand_together(a.item.key, b.item.key);
}

/// Mutations are the same if they do the same to the same record with the same value.
pub proof fn lemma_same_mutations_do_the_same(a: ObjectStoreMutation, b: ObjectStoreMutation)
    ensures
        a.same(b) ==> a.op == b.op && a.item.key.same(b.item.key) && a.item.value.same(b.item.value)
            && a.item.sequence == b.item.sequence,
        a.same(b) ==> a.eq_spec(&b),
        a.same(b) <==> b.same(a),
{
}

/// Ranges of a device are in the order of where they start and, if they start in the same place, of where they end.
pub proof fn lemma_device_ranges_are_ordered(a: DeviceRange, b: DeviceRange)
    ensures
        DeviceRangeV32::obeys_partial_cmp_spec(),
        a.start < b.start ==> a.partial_cmp_spec(&b) == Some(Ordering::Less),
        a.start == b.start && a.end < b.end ==> a.partial_cmp_spec(&b) == Some(Ordering::Less),
        a.partial_cmp_spec(&b) == Some(Ordering::Greater) <==> b.partial_cmp_spec(&a) == Some(Ordering::Less),
        a.partial_cmp_spec(&b) == Some(Ordering::Equal) <==> a == b,
{
}

/// A transaction mutates a record exactly if it holds a mutation of that record, for that store.
pub proof fn lemma_mutated_records_are_held(txn: TxnView, store_object_id: u64, key: ObjectKey)
    ensures
        txn.has_object_mutation(store_object_id, key) <==> exists|mutation: ObjectStoreMutation| #[trigger]
            txn.holds(store_object_id, MutationV47::ObjectStore(mutation)) && mutation.item.key.same(key),
{
    if txn.has_object_mutation(store_object_id, key) {
        let i = choose|i: int| #[trigger] txn.is_object_mutation(i, store_object_id, key);
        assert(txn.holds(store_object_id, MutationV47::ObjectStore(txn.mutations[i].mutation->ObjectStore_0)));
    }
    if exists|mutation: ObjectStoreMutation| #[trigger]
        txn.holds(store_object_id, MutationV47::ObjectStore(mutation)) && mutation.item.key.same(key) {
        let mutation = choose|mutation: ObjectStoreMutation| #[trigger]
            txn.holds(store_object_id, MutationV47::ObjectStore(mutation)) && mutation.item.key.same(key);
        let i = choose|i: int|
            0 <= i < txn.mutations.len() && (#[trigger] txn.mutations[i]).object_id == store_object_id
                && txn.mutations[i].mutation == MutationV47::ObjectStore(mutation);
        assert(txn.is_object_mutation(i, store_object_id, key));
    }
}

/// Mutations of different kinds are in the order of their kinds: records come first, those that are encrypted next, and the
/// allocator before what is done to a store as a whole.
pub proof fn lemma_mutations_are_ordered_by_kind(a: Mutation, b: Mutation)
    ensures
        a is ObjectStore && !(b is ObjectStore) ==> lex_lt(a.spec_order(), b.spec_order()),
        a is EncryptedObjectStore && !(b is ObjectStore) && !(b is EncryptedObjectStore) ==> lex_lt(
            a.spec_order(),
            b.spec_order(),
        ),
        a is Allocator && !(b is ObjectStore) && !(b is EncryptedObjectStore) && !(b is Allocator) ==> lex_lt(
            a.spec_order(),
            b.spec_order(),
        ),
        a is BeginFlush && (b is EndFlush || b is DeleteVolume || b is UpdateBorrowed || b is UpdateMutationsKey
            || b is CreateInternalDir) ==> lex_lt(a.spec_order(), b.spec_order()),
        a is EndFlush && (b is DeleteVolume || b is UpdateBorrowed || b is UpdateMutationsKey
            || b is CreateInternalDir) ==> lex_lt(a.spec_order(), b.spec_order()),
        a is DeleteVolume && (b is UpdateBorrowed || b is UpdateMutationsKey || b is CreateInternalDir) ==> lex_lt(
            a.spec_order(),
            b.spec_order(),
        ),
        a is UpdateBorrowed && (b is UpdateMutationsKey || b is CreateInternalDir) ==> lex_lt(
            a.spec_order(),
            b.spec_order(),
        ),
        a is UpdateMutationsKey && b is CreateInternalDir ==> lex_lt(a.spec_order(), b.spec_order()),
{
    assert(a.spec_order().len() > 0 && b.spec_order().len() > 0);
}

/// Mutations of the allocator are in the order of their kinds; those that allocate are in the order of their ranges, and
/// so are those that deallocate.
pub proof fn lemma_allocations_are_ordered(
    a: DeviceRange,
    b: DeviceRange,
    owner: u64,
    other_owner: u64,
    bytes: u64,
)
    ensures
        ({
            let allocate = AllocatorMutationV32::Allocate { device_range: a, owner_object_id: owner };
            let later = AllocatorMutationV32::Allocate { device_range: b, owner_object_id: other_owner };
            let deallocate = AllocatorMutationV32::Deallocate { device_range: b, owner_object_id: other_owner };
            let later_deallocate = AllocatorMutationV32::Deallocate { device_range: a, owner_object_id: owner };
            let limit = AllocatorMutationV32::SetLimit { owner_object_id: other_owner, bytes };
            let deletion = AllocatorMutationV32::MarkForDeletion(owner);
            &&& lex_lt(allocate.spec_order(), deallocate.spec_order())
            &&& lex_lt(deallocate.spec_order(), limit.spec_order())
            &&& lex_lt(limit.spec_order(), deletion.spec_order())
            &&& a.start < b.start ==> lex_lt(allocate.spec_order(), later.spec_order())
            &&& a.start == b.start && a.end < b.end ==> lex_lt(allocate.spec_order(), later.spec_order())
            &&& a == b && owner < other_owner ==> lex_lt(allocate.spec_order(), later.spec_order())
            &&& b.start < a.start ==> lex_lt(deallocate.spec_order(), later_deallocate.spec_order())
            &&& b.start == a.start && b.end < a.end ==> lex_lt(
                deallocate.spec_order(),
                later_deallocate.spec_order(),
            )
        }),
{
    reveal_with_fuel(lex_lt, 5);
}

} // verus!
