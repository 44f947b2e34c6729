//! The mutations of an encrypted store that are kept for when it is unlocked.
use crate::errors::FxfsError;
use crate::journal::{JournalCheckpoint, JournaledTransaction};
use crate::object_record::{copy_bytes, FxfsKey};
use crate::transaction::{Mutation, MutationV47};
use vstd::prelude::*;

verus! {

pub type EncryptedMutations = EncryptedMutationsV40;

pub struct EncryptedMutationsV40 {
    /// Information about the mutations are held here, but the actual encrypted data is held within
    /// data.  For each transaction, we record the checkpoint and the count of mutations within the
    /// transaction.  The checkpoint is required for the log file offset (which we need to apply the
    /// mutations), and the version so that we can correctly decode the mutation after it has been
    /// decrypted. The count specifies the number of serialized mutations encoded in |data|.
    pub transactions: Vec<(JournalCheckpoint, u64)>,
    /// The encrypted mutations.
    pub data: Vec<u8>,
    /// If the mutations key was rolled, this holds the offset in `data` where the new key should
    /// apply.
    pub mutations_key_roll: Vec<(usize, FxfsKey)>,
}

/// The content of `EncryptedMutations`.
#[verifier::ext_equal]
pub struct EncryptedView {
    pub transactions: Seq<(JournalCheckpoint, u64)>,
    pub data: Seq<u8>,
    pub mutations_key_roll: Seq<(usize, FxfsKey)>,
}

impl View for EncryptedMutationsV40 {
    type V = EncryptedView;

    open spec fn view(&self) -> EncryptedView {
        EncryptedView {
            transactions: self.transactions@,
            data: self.data@,
            mutations_key_roll: self.mutations_key_roll@,
        }
    }
}

/// Key rolls, moved by `by` bytes.
pub open spec fn shifted(rolls: Seq<(usize, FxfsKey)>, by: nat) -> Seq<(usize, FxfsKey)> {
    rolls.map(|i: int, roll: (usize, FxfsKey)| ((roll.0 + by) as usize, roll.1))
}

impl EncryptedView {
    pub open spec fn empty() -> EncryptedView {
        EncryptedView {
            transactions: Seq::empty(),
            data: Seq::empty(),
            mutations_key_roll: Seq::empty(),
        }
    }

    /// The last mutation is of the transaction at `checkpoint`.
    pub open spec fn ends_at(self, checkpoint: JournalCheckpoint) -> bool {
        self.transactions.len() > 0 && self.transactions.last().0.file_offset
            == checkpoint.file_offset
    }

    /// With one more mutation.  A mutation of the same transaction as the last one is counted with
    /// it.
    pub open spec fn pushing(self, checkpoint: JournalCheckpoint, data: Seq<u8>) -> EncryptedView {
        EncryptedView {
            transactions: if self.ends_at(checkpoint) {
                let last = self.transactions.last();
                self.transactions.update(
                    self.transactions.len() - 1,
                    (last.0, (last.1 + 1) as u64),
                )
            } else {
                self.transactions.push((checkpoint, 1))
            },
            data: self.data + data,
            ..self
        }
    }

    /// With a new key for what follows.
    pub open spec fn rolling(self, key: FxfsKey) -> EncryptedView {
        EncryptedView {
            mutations_key_roll: self.mutations_key_roll.push((self.data.len() as usize, key)),
            ..self
        }
    }

    /// With one more replayed mutation, if it is one for the store that matters here.
    pub open spec fn replaying(
        self,
        store_object_id: u64,
        checkpoint: JournalCheckpoint,
        mutation: (u64, Mutation),
    ) -> EncryptedView {
        if mutation.0 != store_object_id {
            self
        } else {
            match mutation.1 {
                MutationV47::EncryptedObjectStore(data) => self.pushing(checkpoint, data@),
                MutationV47::UpdateMutationsKey(key) => self.rolling(key.0),
                _ => self,
            }
        }
    }

    /// With the mutations of `other` appended.
    pub open spec fn extended(self, other: EncryptedView) -> EncryptedView {
        EncryptedView {
            transactions: self.transactions + other.transactions,
            data: self.data + other.data,
            mutations_key_roll: self.mutations_key_roll + shifted(
                other.mutations_key_roll,
                self.data.len(),
            ),
        }
    }

    /// Keys are rolled in order, within the data.
    pub open spec fn wf(self) -> bool {
        key_rolls_fit(self.mutations_key_roll, self.data.len() as int)
    }
}

/// What replaying the first `count` of `mutations` leads to.
pub open spec fn replay_mutations(
    start: EncryptedView,
    store_object_id: u64,
    checkpoint: JournalCheckpoint,
    mutations: Seq<(u64, Mutation)>,
    count: nat,
) -> EncryptedView
    decreases count,
{
    if count == 0 {
        start
    } else {
        replay_mutations(
            start,
            store_object_id,
            checkpoint,
            mutations,
            (count - 1) as nat,
        ).replaying(store_object_id, checkpoint, mutations[count - 1])
    }
}

/// What replaying the first `count` of `transactions` leads to.
pub open spec fn replay_transactions(
    store_object_id: u64,
    transactions: Seq<JournaledTransaction>,
    count: nat,
) -> EncryptedView
    decreases count,
{
    if count == 0 {
        EncryptedView::empty()
    } else {
        let transaction = transactions[count - 1];
        replay_mutations(
            replay_transactions(store_object_id, transactions, (count - 1) as nat),
            store_object_id,
            transaction.checkpoint,
            transaction.non_root_mutations@,
            transaction.non_root_mutations@.len(),
        )
    }
}

/// How many mutations the first `count` of `transactions` have.
pub open spec fn mutation_total(transactions: Seq<JournaledTransaction>, count: nat) -> nat
    decreases count,
{
    if count == 0 {
        0
    } else {
        mutation_total(transactions, (count - 1) as nat) + transactions[count
            - 1].non_root_mutations@.len()
    }
}

proof fn lemma_mutation_total(transactions: Seq<JournaledTransaction>, a: nat, b: nat)
    requires
        a <= b,
    ensures
        mutation_total(transactions, a) <= mutation_total(transactions, b),
    decreases b,
{
    if a < b {
        lemma_mutation_total(transactions, a, (b - 1) as nat);
    }
}

impl Default for EncryptedMutationsV40 {
    fn default() -> (mutations: Self)
        ensures
            mutations@ == EncryptedView::empty(),
    {
        EncryptedMutationsV40 {
            transactions: Vec::new(),
            data: Vec::new(),
            mutations_key_roll: Vec::new(),
        }
    }
}

impl EncryptedMutationsV40 {
    /// Collects the mutations of the store `store_object_id` that were replayed from the journal.
    pub fn from_replayed_mutations(
        store_object_id: u64,
        transactions: &Vec<JournaledTransaction>,
    ) -> (this: Self)
        requires
            mutation_total(transactions@, transactions@.len()) <= u64::MAX,
        ensures
            this@ == replay_transactions(store_object_id, transactions@, transactions@.len()),
            this@.wf(),
    {
        let mut this = EncryptedMutationsV40 {
            transactions: Vec::new(),
            data: Vec::new(),
            mutations_key_roll: Vec::new(),
        };
        assert(this@ =~= EncryptedView::empty());
        let mut t: usize = 0;
        while t < transactions.len()
            invariant
                t <= transactions@.len(),
                mutation_total(transactions@, transactions@.len()) <= u64::MAX,
                this@ == replay_transactions(store_object_id, transactions@, t as nat),
                this@.wf(),
                forall|i: int|
                    0 <= i < this@.transactions.len() ==> (#[trigger] this@.transactions[i]).1
                        <= mutation_total(transactions@, t as nat),
            decreases transactions@.len() - t,
        {
            let transaction = &transactions[t];
            let mutations = &transaction.non_root_mutations;
            let checkpoint = transaction.checkpoint;
            let ghost start = this@;
            proof {
                lemma_mutation_total(transactions@, (t + 1) as nat, transactions@.len());
            }
            let mut m: usize = 0;
            while m < mutations.len()
                invariant
                    m <= mutations@.len(),
                    mutation_total(transactions@, t as nat) + mutations@.len() <= u64::MAX,
                    this@ == replay_mutations(
                        start,
                        store_object_id,
                        checkpoint,
                        mutations@,
                        m as nat,
                    ),
                    this@.wf(),
                    forall|i: int|
                        0 <= i < this@.transactions.len() ==> (#[trigger] this@.transactions[i]).1
                            <= mutation_total(transactions@, t as nat) + m,
                decreases mutations@.len() - m,
            {
                let ghost before = this@;
                if mutations[m].0 == store_object_id {
                    match &mutations[m].1 {
                        MutationV47::EncryptedObjectStore(data) => {
                            this.push(&checkpoint, copy_bytes(data));
                        },
                        MutationV47::UpdateMutationsKey(key) => {
                            let offset: usize = this.data.len();
                            this.mutations_key_roll.push((offset, key.0));
                        },
                        _ => {},
                    }
                }
                assert(this@ =~= before.replaying(store_object_id, checkpoint, mutations@[m as int]));
                m += 1;
            }
            t += 1;
        }
        this
    }

    /// Appends the mutations of `other`.
    pub fn extend(&mut self, other: &EncryptedMutationsV40)
        requires
            forall|i: int|
                0 <= i < other@.mutations_key_roll.len() ==> (#[trigger] other@.mutations_key_roll[i]).0
                    + old(self)@.data.len() <= usize::MAX,
        ensures
            final(self)@ == old(self)@.extended(other@),
            old(self)@.wf() && other@.wf() ==> final(self)@.wf(),
    {
        let ghost start = self@;
        let len: usize = self.data.len();
        let mut i: usize = 0;
        while i < other.transactions.len()
            invariant
                i <= other.transactions@.len(),
                self@ == (EncryptedView {
                    transactions: start.transactions + other@.transactions.take(i as int),
                    ..start
                }),
            decreases other.transactions@.len() - i,
        {
            self.transactions.push((other.transactions[i].0, other.transactions[i].1));
            assert(self.transactions@ =~= start.transactions + other@.transactions.take(i + 1));
            i += 1;
        }
        assert(other@.transactions.take(i as int) =~= other@.transactions);
        let ghost rolls = shifted(other@.mutations_key_roll, start.data.len());
        let mut r: usize = 0;
        while r < other.mutations_key_roll.len()
            invariant
                r <= other.mutations_key_roll@.len(),
                len == start.data.len(),
                forall|i: int|
                    0 <= i < other@.mutations_key_roll.len() ==> (
                    #[trigger] other@.mutations_key_roll[i]).0 + len <= usize::MAX,
                rolls == shifted(other@.mutations_key_roll, start.data.len()),
                self@ == (EncryptedView {
                    transactions: start.transactions + other@.transactions,
                    mutations_key_roll: start.mutations_key_roll + rolls.take(r as int),
                    ..start
                }),
            decreases other.mutations_key_roll@.len() - r,
        {
            let offset: usize = other.mutations_key_roll[r].0;
            let key = other.mutations_key_roll[r].1;
            assert(other@.mutations_key_roll[r as int].0 == offset);
            self.mutations_key_roll.push((offset + len, key));
            assert(self.mutations_key_roll@ =~= start.mutations_key_roll + rolls.take(r + 1));
            r += 1;
        }
        assert(rolls.take(r as int) =~= rolls);
        let mut data = copy_bytes(&other.data);
        self.data.append(&mut data);
        assert(self@ =~= start.extended(other@));
    }

    /// Appends a mutation of the transaction at `checkpoint`.
    pub fn push(&mut self, checkpoint: &JournalCheckpoint, data: Vec<u8>)
        requires
            old(self)@.ends_at(*checkpoint) ==> old(self)@.transactions.last().1 < u64::MAX,
        ensures
            final(self)@ == old(self)@.pushing(*checkpoint, data@),
            old(self)@.wf() ==> final(self)@.wf(),
    {
        let mut data = data;
        self.data.append(&mut data);
        // If the checkpoint is the same as the last mutation we pushed, increment the count.
        let len: usize = self.transactions.len();
        if len > 0 {
            let (last_checkpoint, count) = self.transactions[len - 1];
            if last_checkpoint.file_offset == checkpoint.file_offset {
                self.transactions[len - 1] = (last_checkpoint, count + 1);
                return;
            }
        }
        self.transactions.push((*checkpoint, 1));
    }
}

/// Key rolls are in order, within `len` bytes of data.
pub open spec fn key_rolls_fit(rolls: Seq<(usize, FxfsKey)>, len: int) -> bool {
    &&& forall|i: int| 0 <= i < rolls.len() ==> (#[trigger] rolls[i]).0 <= len
    &&& forall|i: int, j: int|
        #![trigger rolls[i], rolls[j]]
        0 <= i <= j < rolls.len() ==> rolls[i].0 <= rolls[j].0
}

/// The end of the segment before segment `index`, or the start of the data.
pub open spec fn segment_start(rolls: Seq<(usize, FxfsKey)>, index: int) -> int {
    if index == 0 {
        0
    } else {
        rolls[index - 1].0 as int
    }
}

/// Where each key applies: segment `i` ends where roll `i` is, and the last one with the data.
pub open spec fn is_segmentation(
    segments: Seq<(usize, usize)>,
    rolls: Seq<(usize, FxfsKey)>,
    len: int,
) -> bool {
    &&& segments.len() == rolls.len() + 1
    &&& forall|i: int|
        0 <= i < segments.len() ==> (#[trigger] segments[i]).0 == segment_start(rolls, i)
            && segments[i].1 == (if i < rolls.len() {
            rolls[i].0 as int
        } else {
            len
        })
}

/// Splits `len` bytes of data where the key was rolled: each segment is to be decrypted with the key
/// that was rolled at its start, the first one with the key of the store.
pub fn split_at_key_rolls(len: usize, rolls: &Vec<(usize, FxfsKey)>) -> (segments: Result<
    Vec<(usize, usize)>,
    FxfsError,
>)
    ensures
        match segments {
            Ok(segments) => key_rolls_fit(rolls@, len as int) && is_segmentation(
                segments@,
                rolls@,
                len as int,
            ),
            Err(error) => !key_rolls_fit(rolls@, len as int) && error == FxfsError::Inconsistent,
        },
{
    let mut segments: Vec<(usize, usize)> = Vec::new();
    let mut last_offset: usize = 0;
    let mut i: usize = 0;
    while i < rolls.len()
        invariant
            i <= rolls@.len(),
            segments@.len() == i,
            last_offset == segment_start(rolls@, i as int),
            last_offset <= len,
            forall|j: int| 0 <= j < i ==> (#[trigger] rolls@[j]).0 <= last_offset,
            forall|j: int, k: int|
                #![trigger rolls@[j], rolls@[k]]
                0 <= j <= k < i ==> rolls@[j].0 <= rolls@[k].0,
            forall|j: int|
                0 <= j < i ==> (#[trigger] segments@[j]).0 == segment_start(rolls@, j)
                    && segments@[j].1 == rolls@[j].0,
        decreases rolls@.len() - i,
    {
        let offset: usize = rolls[i].0;
        match offset.checked_sub(last_offset) {
            None => {
                assert(rolls@[i as int].0 < rolls@[i - 1].0);
                return Err(FxfsError::Inconsistent);
            },
            Some(split_offset) => {
                if split_offset > len - last_offset {
                    assert(rolls@[i as int].0 > len);
                    return Err(FxfsError::Inconsistent);
                }
            },
        }
        segments.push((last_offset, offset));
        last_offset = offset;
        i += 1;
    }
    segments.push((last_offset, len));
    Ok(segments)
}

/// The segments are adjacent and cover the data: nothing is decrypted twice, and nothing is left.
pub proof fn lemma_segments_partition(
    segments: Seq<(usize, usize)>,
    rolls: Seq<(usize, FxfsKey)>,
    len: int,
)
    requires
        key_rolls_fit(rolls, len),
        is_segmentation(segments, rolls, len),
        len >= 0,
    ensures
        segments[0].0 == 0,
        segments.last().1 == len,
        forall|i: int| 0 <= i < segments.len() ==> (#[trigger] segments[i]).0 <= segments[i].1,
        forall|i: int|
            0 < i < segments.len() ==> (#[trigger] segments[i]).0 == segments[i - 1].1,
{
    assert forall|i: int| 0 <= i < segments.len() implies (#[trigger] segments[i]).0
        <= segments[i].1 by {
        if i > 0 {
            let before = rolls[i - 1];
            if i < rolls.len() {
                assert(before.0 <= rolls[i].0);
            }
        }
    }
    assert forall|i: int| 0 < i < segments.len() implies (#[trigger] segments[i]).0 == segments[i
        - 1].1 by {}
}

/// Appending mutations moves their key rolls along with their data: the key that applies to a byte of
/// what was appended is the one that applied to it before.
pub proof fn lemma_extend_moves_rolls(a: EncryptedView, b: EncryptedView, i: int)
    requires
        0 <= i < b.mutations_key_roll.len(),
        b.wf(),
        a.data.len() + b.data.len() <= usize::MAX,
    ensures
        ({
            let roll = a.extended(b).mutations_key_roll[a.mutations_key_roll.len() + i];
            &&& roll.1 == b.mutations_key_roll[i].1
            &&& roll.0 == a.data.len() + b.mutations_key_roll[i].0
            &&& a.extended(b).data.skip(roll.0 as int) == b.data.skip(
                b.mutations_key_roll[i].0 as int,
            )
        }),
{
    let roll = a.extended(b).mutations_key_roll[a.mutations_key_roll.len() + i];
    assert(b.mutations_key_roll[i].0 <= b.data.len());
    assert(roll == shifted(b.mutations_key_roll, a.data.len())[i]);
    assert(a.extended(b).data.skip(roll.0 as int) =~= b.data.skip(
        b.mutations_key_roll[i].0 as int,
    ));
}

/// A mutation is counted with its transaction: with the last one if it is of the same, and otherwise as the first of a
/// new one.  Its bytes follow those that are there, and no key is rolled.
pub proof fn lemma_mutations_are_counted_by_transaction(
    view: EncryptedView,
    checkpoint: JournalCheckpoint,
    data: Seq<u8>,
)
    requires
        view.transactions.len() > 0 ==> view.transactions.last().1 < u64::MAX,
    ensures
        ({
            let after = view.pushing(checkpoint, data);
            let same = view.transactions.len() > 0 && view.transactions.last().0.file_offset
                == checkpoint.file_offset;
            &&& after.data == view.data + data
            &&& after.mutations_key_roll == view.mutations_key_roll
            &&& same ==> after.transactions.len() == view.transactions.len() && after.transactions.last().0
                == view.transactions.last().0 && after.transactions.last().1
                == view.transactions.last().1 + 1
            &&& !same ==> after.transactions.len() == view.transactions.len() + 1
                && after.transactions.last() == (checkpoint, 1u64)
            &&& forall|i: int|
                0 <= i < view.transactions.len() - 1 ==> #[trigger] after.transactions[i]
                    == view.transactions[i]
            &&& !same && view.transactions.len() > 0 ==> after.transactions[view.transactions.len() - 1]
                == view.transactions.last()
        }),
{
}

/// A new key applies to what follows it: it is noted where the data ends, after the keys before it.
pub proof fn lemma_new_key_applies_to_what_follows(view: EncryptedView, key: FxfsKey)
    requires
        view.data.len() <= usize::MAX,
    ensures
        ({
            let after = view.rolling(key);
            &&& after.mutations_key_roll.len() == view.mutations_key_roll.len() + 1
            &&& after.mutations_key_roll.last().0 == view.data.len()
            &&& after.mutations_key_roll.last().1 == key
            &&& after.mutations_key_roll.drop_last() == view.mutations_key_roll
            &&& after.data == view.data
            &&& after.transactions == view.transactions
            &&& view.wf() ==> after.wf()
        }),
{
    let after = view.rolling(key);
    assert(after.mutations_key_roll.drop_last() =~= view.mutations_key_roll);
}

/// Of what is replayed, only the encrypted mutations of the store, and its new keys, are kept, each for what it is.
pub proof fn lemma_only_what_is_encrypted_is_kept(
    view: EncryptedView,
    store: u64,
    other_store: u64,
    checkpoint: JournalCheckpoint,
    mutation: Mutation,
)
    ensures
        other_store != store ==> view.replaying(store, checkpoint, (other_store, mutation)) == view,
        !(mutation is EncryptedObjectStore) && !(mutation is UpdateMutationsKey) ==> view.replaying(
            store,
            checkpoint,
            (store, mutation),
        ) == view,
        mutation matches MutationV47::EncryptedObjectStore(data) ==> view.replaying(
            store,
            checkpoint,
            (store, mutation),
        ) == view.pushing(checkpoint, data@),
        mutation matches MutationV47::UpdateMutationsKey(key) ==> view.replaying(
            store,
            checkpoint,
            (store, mutation),
        ) == view.rolling(key.0),
{
}

/// Transactions are replayed one after the other, each with its mutations in order, at its own place of the journal.
pub proof fn lemma_transactions_are_replayed_in_order(
    store: u64,
    transactions: Seq<JournaledTransaction>,
    count: nat,
    start: EncryptedView,
    checkpoint: JournalCheckpoint,
    mutations: Seq<(u64, Mutation)>,
    n: nat,
)
    requires
        count < transactions.len(),
        n < mutations.len(),
    ensures
        replay_transactions(store, transactions, 0).transactions.len() == 0,
        replay_transactions(store, transactions, 0).data.len() == 0,
        replay_transactions(store, transactions, 0).mutations_key_roll.len() == 0,
        replay_transactions(store, transactions, count + 1) == replay_mutations(
            replay_transactions(store, transactions, count),
            store,
            transactions[count as int].checkpoint,
            transactions[count as int].non_root_mutations@,
            transactions[count as int].non_root_mutations@.len(),
        ),
        replay_mutations(start, store, checkpoint, mutations, 0) == start,
        replay_mutations(start, store, checkpoint, mutations, n + 1) == replay_mutations(
            start,
            store,
            checkpoint,
            mutations,
            n,
        ).replaying(store, checkpoint, mutations[n as int]),
{
}

/// What is appended follows what is there: transactions, data and keys alike; appending nothing changes nothing.
pub proof fn lemma_appended_mutations_follow(a: EncryptedView, b: EncryptedView)
    ensures
        a.extended(b).transactions == a.transactions + b.transactions,
        a.extended(b).data == a.data + b.data,
        a.extended(b).mutations_key_roll.len() == a.mutations_key_roll.len() + b.mutations_key_roll.len(),
        forall|i: int|
            0 <= i < a.mutations_key_roll.len() ==> #[trigger] a.extended(b).mutations_key_roll[i]
                == a.mutations_key_roll[i],
        a.extended(EncryptedView::empty()) == a,
{
    assert(a.extended(EncryptedView::empty()) =~= a);
}

} // verus!
