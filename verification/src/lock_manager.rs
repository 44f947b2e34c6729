//! The lock manager that transactions, readers and writers share.
//!
//! Waiting itself happens outside: a request that cannot be granted at once yields a `LockWaker`,
//! and every operation that grants waiting requests returns the wakers that it granted, in order.
use crate::fx_map::fx_map_default;
use crate::lock_grants::{
    can_release, entry_settled, holds_lock, lemma_change_settles, lemma_lock_settles, lemma_reader_granted,
    lemma_release_settles, lemma_take_up_settles, lemma_upgrade_settles,
    lemma_without_waiter_settles, reader_grants, reads_taken_up, settled, taken_up, upgrade_waits,
    without_grant, writer_granted,
};
use crate::lock_keys::{
    is_strictly_sorted, lemma_ordinal_injective, lemma_without_runs_of_sorted, KeyOrdinal, LockKey,
    LockKeys,
};
use rustc_hash::FxHashMap;
use vstd::prelude::*;

verus! {

/// What a lock is held for, or what a request asks for.
#[derive(Clone, Copy, Debug, PartialEq, Eq, Structural)]
pub enum LockState {
    /// In this state, there are only readers.
    ReadLock,
    /// This state is used for transactions to lock other writers (including other transactions),
    /// but it still allows readers.
    Locked,
    /// A writer has exclusive access; all other readers and writers are blocked.
    WriteLock,
}

/// How far a waiting request has come.
pub enum WakerState<W> {
    /// This is the initial state before the waker has been first polled.
    Pending,
    /// Once polled, this contains the actual waker.
    Registered(W),
    /// The waker has been woken and has been granted the lock.
    Woken,
}

impl<W> WakerState<W> {
    pub fn is_woken(&self) -> (woken: bool)
        ensures
            woken == (*self is Woken),
    {
        matches!(self, WakerState::Woken)
    }

    /// Polls the request: it is ready once it has been woken, and until then the task that polls is
    /// registered.
    pub fn poll(&mut self, waker: W) -> (ready: bool)
        ensures
            ready == (*old(self) is Woken),
            *final(self) == (if ready {
                WakerState::Woken
            } else {
                WakerState::Registered(waker)
            }),
    {
        if self.is_woken() {
            true
        } else {
            *self = WakerState::Registered(waker);
            false
        }
    }

    /// Wakes the request.  Returns the task that is registered, which is to be woken.
    pub fn wake(&mut self) -> (task: Option<W>)
        ensures
            *final(self) is Woken,
            task == (match *old(self) {
                WakerState::Registered(waker) => Some(waker),
                _ => None,
            }),
    {
        let mut state = WakerState::Woken;
        core::mem::swap(self, &mut state);
        match state {
            WakerState::Registered(waker) => Some(waker),
            _ => None,
        }
    }
}

/// A request that waits for its lock.
#[derive(Clone, Copy, Debug, PartialEq, Eq, Structural)]
pub struct LockWaker {
    /// Tells this request from all others.
    pub id: u64,
    /// The lock that the request waits for.
    pub key: LockKey,
    /// The target state for this waker.
    pub target_state: LockState,
    /// True if this is an upgrade.
    pub is_upgrade: bool,
}

/// A lock that is held, and the requests that wait for it.
pub struct LockEntry {
    /// In the states that allow readers (ReadLock, Locked), this count can be non-zero
    /// to indicate the number of active readers.
    pub read_count: u64,
    /// The state of the lock.
    pub state: LockState,
    /// The requests that wait, the next one to be granted first.  New requests are usually added
    /// at the end, with the exception being the case where a lock in state Locked is to be upgraded
    /// to WriteLock, but can't because there are readers.
    pub waiters: Vec<LockWaker>,
}

/// The mathematical content of a `LockEntry`.
#[verifier::ext_equal]
pub struct EntryView {
    pub read_count: nat,
    pub state: LockState,
    pub waiters: Seq<LockWaker>,
}

impl View for LockEntry {
    type V = EntryView;

    open spec fn view(&self) -> EntryView {
        EntryView {
            read_count: self.read_count as nat,
            state: self.state,
            waiters: self.waiters@,
        }
    }
}

/// The number of readers that `waiters` begins with.
pub open spec fn leading_readers(waiters: Seq<LockWaker>) -> nat
    decreases waiters.len(),
{
    if waiters.len() > 0 && waiters[0].target_state == LockState::ReadLock {
        1 + leading_readers(waiters.skip(1))
    } else {
        0
    }
}

impl EntryView {
    /// A lock that nobody holds or waits for.
    pub open spec fn free() -> EntryView {
        EntryView { read_count: 0, state: LockState::ReadLock, waiters: Seq::empty() }
    }

    /// Somebody holds the lock.
    pub open spec fn held(self) -> bool {
        self.state != LockState::ReadLock || self.read_count > 0
    }

    /// Whether a request for `target` can proceed.  `is_head` says that nothing waits before it.
    pub open spec fn is_allowed(self, target: LockState, is_head: bool) -> bool {
        match self.state {
            LockState::ReadLock => is_head && (target != LockState::WriteLock || self.read_count
                == 0),
            LockState::Locked => target == LockState::ReadLock && (is_head
                || !self.waiters[0].is_upgrade),
            LockState::WriteLock => false,
        }
    }

    /// Whether a new request for `target` is granted at once.
    pub open spec fn grants(self, target: LockState) -> bool {
        self.is_allowed(target, self.waiters.len() == 0)
    }

    /// The lock once a request for `target` has been granted.
    pub open spec fn granted(self, target: LockState) -> EntryView {
        if target == LockState::ReadLock {
            EntryView { read_count: self.read_count + 1, ..self }
        } else {
            EntryView { state: target, ..self }
        }
    }

    /// The lock once `waker` has queued up behind all others.
    pub open spec fn queued(self, waker: LockWaker) -> EntryView {
        EntryView { waiters: self.waiters.push(waker), ..self }
    }

    /// The lock once `waker` has queued up before all others.
    pub open spec fn queued_first(self, waker: LockWaker) -> EntryView {
        EntryView { waiters: seq![waker] + self.waiters, ..self }
    }

    /// Whether the request that waits first can be granted.
    pub open spec fn can_wake(self) -> bool {
        &&& self.waiters.len() > 0
        &&& self.state != LockState::WriteLock
        &&& if self.waiters[0].is_upgrade {
            self.read_count == 0
        } else {
            self.is_allowed(self.waiters[0].target_state, true)
        }
    }

    /// How many waiting requests are granted: the first one if it can proceed and, unless that is a
    /// writer, the readers that follow it.
    pub open spec fn wake_count(self) -> nat {
        if !self.can_wake() {
            0
        } else if self.waiters[0].target_state == LockState::WriteLock {
            1
        } else {
            1 + leading_readers(self.waiters.skip(1))
        }
    }

    /// The wakers of the requests that are granted.
    pub open spec fn wakers(self) -> Seq<LockWaker> {
        self.waiters.take(self.wake_count() as int)
    }

    /// The lock once every request that can be granted has been.
    pub open spec fn woken(self) -> EntryView {
        let count = self.wake_count();
        if count == 0 {
            self
        } else if self.waiters[0].target_state == LockState::ReadLock {
            EntryView {
                read_count: self.read_count + count,
                state: self.state,
                waiters: self.waiters.skip(count as int),
            }
        } else {
            EntryView {
                read_count: (self.read_count + count - 1) as nat,
                state: self.waiters[0].target_state,
                waiters: self.waiters.skip(count as int),
            }
        }
    }

    /// The lock once the hold that `state` describes has been given up, before anyone is woken.
    pub open spec fn given_up(self, state: LockState) -> EntryView {
        if state == LockState::ReadLock {
            EntryView { read_count: (self.read_count - 1) as nat, ..self }
        } else {
            EntryView { state: LockState::ReadLock, ..self }
        }
    }

    /// Whether giving up the hold that `state` describes can let anyone proceed.
    pub open spec fn release_wakes(self, state: LockState) -> bool {
        state != LockState::ReadLock || self.read_count == 1
    }

    /// The lock once the hold that `state` describes has been released.
    pub open spec fn released(self, state: LockState) -> EntryView {
        if self.release_wakes(state) {
            self.given_up(state).woken()
        } else {
            self.given_up(state)
        }
    }

    /// The wakers of the requests that are granted when that hold is released.
    pub open spec fn release_wakers(self, state: LockState) -> Seq<LockWaker> {
        if self.release_wakes(state) {
            self.given_up(state).wakers()
        } else {
            Seq::empty()
        }
    }

    /// The lock of a writer once it has been turned into a transaction lock, before anyone is woken.
    pub open spec fn downgraded(self) -> EntryView {
        EntryView { state: LockState::Locked, ..self }
    }

    /// The lock without the waiter at `index`, before anyone is woken.
    pub open spec fn without_waiter(self, index: int) -> EntryView {
        EntryView { waiters: self.waiters.remove(index), ..self }
    }

    /// What holds of every lock in the table: somebody holds it; a writer excludes readers; upgrades
    /// are to write locks; those that wait are told apart by identifiers below `requests`; and no
    /// more than `requests` readers hold it or wait for it.
    pub open spec fn wf(self, key: LockKey, requests: nat) -> bool {
        &&& self.held()
        &&& self.state == LockState::WriteLock ==> self.read_count == 0
        &&& self.read_count + self.waiters.len() <= requests
        &&& forall|i: int|
            #![trigger self.waiters[i]]
            0 <= i < self.waiters.len() ==> {
                &&& self.waiters[i].id < requests
                &&& self.waiters[i].key == key
                &&& self.waiters[i].is_upgrade ==> self.waiters[i].target_state
                    == LockState::WriteLock
            }
        &&& forall|i: int, j: int|
            #![trigger self.waiters[i], self.waiters[j]]
            0 <= i < j < self.waiters.len() ==> self.waiters[i].id != self.waiters[j].id
    }
}

proof fn lemma_leading_readers(waiters: Seq<LockWaker>)
    ensures
        leading_readers(waiters) <= waiters.len(),
        forall|i: int|
            0 <= i < leading_readers(waiters) ==> (#[trigger] waiters[i]).target_state
                == LockState::ReadLock,
        leading_readers(waiters) < waiters.len() ==> waiters[leading_readers(
            waiters,
        ) as int].target_state != LockState::ReadLock,
    decreases waiters.len(),
{
    if waiters.len() > 0 && waiters[0].target_state == LockState::ReadLock {
        let rest = waiters.skip(1);
        lemma_leading_readers(rest);
        assert forall|i: int| 0 <= i < leading_readers(waiters) implies (
        #[trigger] waiters[i]).target_state == LockState::ReadLock by {
            if i > 0 {
                assert(rest[i - 1] == waiters[i]);
            }
        }
        if leading_readers(waiters) < waiters.len() {
            assert(rest[leading_readers(rest) as int] == waiters[leading_readers(waiters) as int]);
        }
    }
}

proof fn lemma_leading_readers_from(waiters: Seq<LockWaker>, count: int)
    requires
        0 <= count <= waiters.len(),
        forall|i: int|
            0 <= i < count ==> (#[trigger] waiters[i]).target_state == LockState::ReadLock,
    ensures
        leading_readers(waiters) == count + leading_readers(waiters.skip(count)),
    decreases count,
{
    if count > 0 {
        let rest = waiters.skip(1);
        assert forall|i: int| 0 <= i < count - 1 implies (#[trigger] rest[i]).target_state
            == LockState::ReadLock by {
            assert(rest[i] == waiters[i + 1]);
        }
        lemma_leading_readers_from(rest, count - 1);
        assert(rest.skip(count - 1) =~= waiters.skip(count));
        assert(waiters[0].target_state == LockState::ReadLock);
    } else {
        assert(waiters.skip(0) =~= waiters);
    }
}

/// The requests that are granted are those that waited longest, and what is left waits in its old
/// order.
pub proof fn lemma_wake_takes_prefix(entry: EntryView)
    ensures
        entry.wake_count() <= entry.waiters.len(),
        entry.wakers() + entry.woken().waiters == entry.waiters,
{
    if entry.can_wake() {
        lemma_leading_readers(entry.waiters.skip(1));
    }
    assert(entry.wakers() + entry.woken().waiters =~= entry.waiters);
}

/// All but the first of the requests that are granted together are readers.
pub proof fn lemma_readers_are_woken_together(entry: EntryView, index: int)
    requires
        0 < index < entry.wake_count(),
    ensures
        entry.waiters[index].target_state == LockState::ReadLock,
{
    let rest = entry.waiters.skip(1);
    lemma_leading_readers(rest);
    assert(rest[index - 1] == entry.waiters[index]);
}

/// Granting requests keeps a lock that is held, or that somebody waits for, well-formed.
proof fn lemma_woken_wf(entry: EntryView, key: LockKey, requests: nat)
    requires
        entry.held() || entry.waiters.len() > 0,
        entry.state == LockState::WriteLock ==> entry.read_count == 0,
        entry.downgraded().wf(key, requests),
    ensures
        entry.woken().wf(key, requests),
{
    lemma_wake_takes_prefix(entry);
    let count = entry.wake_count() as int;
    let woken = entry.woken();
    let waiters = entry.downgraded().waiters;
    assert(waiters == entry.waiters);
    assert(woken.waiters =~= waiters.skip(count));
    assert forall|i: int| #![trigger woken.waiters[i]] 0 <= i < woken.waiters.len() implies {
        &&& woken.waiters[i].id < requests
        &&& woken.waiters[i].key == key
        &&& woken.waiters[i].is_upgrade ==> woken.waiters[i].target_state == LockState::WriteLock
    } by {
        assert(woken.waiters[i] == waiters[i + count]);
    }
    assert forall|i: int, j: int|
        #![trigger woken.waiters[i], woken.waiters[j]]
        0 <= i < j < woken.waiters.len() implies woken.waiters[i].id != woken.waiters[j].id by {
        assert(woken.waiters[i] == waiters[i + count]);
        assert(woken.waiters[j] == waiters[j + count]);
    }
    assert(woken.read_count + woken.waiters.len() <= entry.read_count + entry.waiters.len());
    assert(woken.held());
    assert(woken.state == LockState::WriteLock ==> woken.read_count == 0);
}

impl LockEntry {
    /// Returns whether or not a lock with given `target_state` can proceed.  `is_head` should be
    /// true if this is something at the head of the waker list (or the waker list is empty) and
    /// false if there are other items on the waker list that are prior.
    pub fn is_allowed(&self, target_state: LockState, is_head: bool) -> (allowed: bool)
        requires
            !is_head ==> self.waiters@.len() > 0,
        ensures
            allowed == self@.is_allowed(target_state, is_head),
    {
        match self.state {
            LockState::ReadLock => {
                // Allow ReadLock and Locked so long as nothing else is waiting.
                (self.read_count == 0 || target_state == LockState::Locked || target_state
                    == LockState::ReadLock) && is_head
            },
            LockState::Locked => {
                // Always allow reads unless there's an upgrade waiting.  We have to
                // always allow reads in this state because tasks that have locks in
                // the Locked state can later try and acquire ReadLock.
                target_state == LockState::ReadLock && (is_head || !self.waiters[0].is_upgrade)
            },
            LockState::WriteLock => false,
        }
    }

    /// Grants a request for `target_state`.
    fn grant(&mut self, target_state: LockState)
        requires
            target_state == LockState::ReadLock ==> old(self).read_count < u64::MAX,
        ensures
            final(self)@ == old(self)@.granted(target_state),
    {
        if target_state == LockState::ReadLock {
            self.read_count += 1;
        } else {
            self.state = target_state;
        }
    }

    /// Removes the first waiter, grants what it asked for and returns it.
    fn pop_and_wake(&mut self) -> (waker: LockWaker)
        requires
            old(self).waiters@.len() > 0,
            old(self).read_count < u64::MAX,
        ensures
            waker == old(self).waiters@[0],
            final(self)@ == (EntryView {
                waiters: old(self).waiters@.skip(1),
                ..old(self)@
            }).granted(waker.target_state),
    {
        let waker = self.waiters.remove(0);
        self.grant(waker.target_state);
        assert(self.waiters@ =~= old(self).waiters@.skip(1));
        waker
    }

    /// Grants the request that waits first, if it can proceed, and the readers that follow it
    /// unless it is a writer.  Returns the wakers of what was granted.
    pub fn wake(&mut self) -> (woken: Vec<LockWaker>)
        requires
            old(self)@.read_count + old(self)@.waiters.len() <= u64::MAX,
        ensures
            woken@ == old(self)@.wakers(),
            final(self)@ == old(self)@.woken(),
    {
        let ghost start = self@;
        proof {
            lemma_wake_takes_prefix(start);
        }
        let mut woken: Vec<LockWaker> = Vec::new();
        // If the lock's state is WriteLock, or there's nothing waiting, return early.
        if self.waiters.len() == 0 || self.state == LockState::WriteLock {
            assert(woken@ =~= start.wakers());
            return woken;
        }
        let first = self.waiters[0];
        if first.is_upgrade {
            if self.read_count > 0 {
                assert(woken@ =~= start.wakers());
                return woken;
            }
        } else if !self.is_allowed(first.target_state, true) {
            assert(woken@ =~= start.wakers());
            return woken;
        }
        let waker = self.pop_and_wake();
        woken.push(waker);
        // If the waker was a write lock, we can't wake any more up, but otherwise, we can keep
        // waking up readers.
        if waker.target_state == LockState::WriteLock {
            assert(woken@ =~= start.wakers());
            return woken;
        }
        let ghost rest = start.waiters.skip(1);
        let ghost popped = self@;
        let ghost mut count: int = 0;
        while self.waiters.len() > 0 && self.waiters[0].target_state == LockState::ReadLock
            invariant
                0 <= count <= rest.len(),
                rest == start.waiters.skip(1),
                start.waiters.len() > 0,
                popped.waiters == rest,
                popped.read_count + rest.len() <= u64::MAX,
                self@ == (EntryView {
                    read_count: popped.read_count + count as nat,
                    state: popped.state,
                    waiters: rest.skip(count),
                }),
                woken@ == start.waiters.take(count + 1),
                forall|i: int|
                    0 <= i < count ==> (#[trigger] rest[i]).target_state == LockState::ReadLock,
            decreases rest.len() - count,
        {
            assert(rest.skip(count)[0] == rest[count]);
            assert(rest[count] == start.waiters[count + 1]);
            let waker = self.pop_and_wake();
            woken.push(waker);
            assert(rest.skip(count).skip(1) =~= rest.skip(count + 1));
            assert(woken@ =~= start.waiters.take(count + 2));
            proof {
                count = count + 1;
            }
        }
        proof {
            lemma_leading_readers_from(rest, count);
            assert(rest.skip(count) == self.waiters@);
            assert(leading_readers(rest.skip(count)) == 0);
            assert(start.wake_count() == count + 1);
            assert(rest.skip(count) =~= start.waiters.skip(count + 1));
            assert(self@ =~= start.woken());
        }
        woken
    }

    /// Returns whether nobody holds this lock.
    pub fn can_remove(&self) -> (can: bool)
        ensures
            can == !self@.held(),
    {
        self.state == LockState::ReadLock && self.read_count == 0
    }
}

/// The table of the locks that are held, by the ordinal of their key.
pub type LockTable = FxHashMap<KeyOrdinal, LockEntry>;

/// `FxHashMap::contains_key` says whether the map holds an entry for `ordinal`.
#[verifier::external_body]
fn table_contains(table: &LockTable, ordinal: &KeyOrdinal) -> (contains: bool)
    ensures
        contains == table@.contains_key(*ordinal),
{
    table.contains_key(ordinal)
}

/// `FxHashMap::get` returns the entry for `ordinal`, if the map holds one.
#[verifier::external_body]
fn table_get<'a>(table: &'a LockTable, ordinal: &KeyOrdinal) -> (entry: Option<&'a LockEntry>)
    ensures
        match entry {
            Some(entry) => table@.contains_key(*ordinal) && *entry == table@[*ordinal],
            None => !table@.contains_key(*ordinal),
        },
{
    table.get(ordinal)
}

/// `FxHashMap::insert` puts `entry` in the map under `ordinal` and touches no other entry; it
/// returns the entry that it replaced.
#[verifier::external_body]
fn table_insert(table: &mut LockTable, ordinal: KeyOrdinal, entry: LockEntry) -> (replaced: Option<
    LockEntry,
>)
    ensures
        final(table)@ == old(table)@.insert(ordinal, entry),
        replaced == (if old(table)@.contains_key(ordinal) {
            Some(old(table)@[ordinal])
        } else {
            None
        }),
{
    table.insert(ordinal, entry)
}

/// `FxHashMap::remove` takes the entry for `ordinal` out of the map, touches no other entry, and
/// returns what it took out.
#[verifier::external_body]
fn table_remove(table: &mut LockTable, ordinal: &KeyOrdinal) -> (removed: Option<LockEntry>)
    ensures
        final(table)@ == old(table)@.remove(*ordinal),
        removed == (if old(table)@.contains_key(*ordinal) {
            Some(old(table)@[*ordinal])
        } else {
            None
        }),
{
    table.remove(ordinal)
}

/// The locks that are held, by key.
pub type LockMap = Map<LockKey, EntryView>;

/// The lock for `key`, free if nobody holds it.
pub open spec fn lookup(locks: LockMap, key: LockKey) -> EntryView {
    if locks.contains_key(key) {
        locks[key]
    } else {
        EntryView::free()
    }
}

/// `locks` with `entry` for `key`, which is forgotten where nobody holds it.
pub open spec fn store(locks: LockMap, key: LockKey, entry: EntryView) -> LockMap {
    if entry.held() {
        locks.insert(key, entry)
    } else {
        locks.remove(key)
    }
}

/// LockManager holds the locks that transactions might have taken.
///
/// Three different kinds of locks are supported.  There are read locks and write locks, which are
/// as one would expect.  The third kind of lock is a _transaction_ lock (which is also known as an
/// upgradeable read lock).  When first acquired, these block other writes (including other
/// transaction locks) but do not block reads.  When it is time to commit a transaction, these locks
/// are upgraded to full write locks (without ever dropping the lock) and then dropped after
/// committing.  This way, reads are only blocked for the shortest possible time.  It follows that
/// write locks should be used sparingly.  Locks are granted in order with one exception: when a lock
/// is in the initial _transaction_ lock state (LockState::Locked), all read locks are allowed even if
/// there are other tasks waiting for the lock.  The reason for this is because we allow read locks to
/// be taken by tasks that have taken a _transaction_ lock (i.e. recursion is allowed).  In other
/// cases, such as when a writer is waiting and there are only readers, readers will queue up behind
/// the writer.
///
/// To summarize:
///
/// +-------------------------+-----------------+----------------+------------------+
/// |                         | While read_lock | While txn_lock | While write_lock |
/// |                         | is held         | is held        | is held          |
/// +-------------------------+-----------------+----------------+------------------+
/// | Can acquire read_lock?  | true            | true           | false            |
/// +-------------------------+-----------------+----------------+------------------+
/// | Can acquire txn_lock?   | true            | false          | false            |
/// +-------------------------+-----------------+----------------+------------------+
/// | Can acquire write_lock? | false           | false          | false            |
/// +-------------------------+-----------------+----------------+------------------+
pub struct LockManager {
    table: LockTable,
    requests: u64,
    granted: Ghost<Seq<LockWaker>>,
}

/// The locks in a table.
closed spec fn table_locks(table: LockTable) -> LockMap {
    Map::new(
        |key: LockKey| table@.contains_key(key.spec_ordinal()),
        |key: LockKey| table@[key.spec_ordinal()]@,
    )
}

impl View for LockManager {
    type V = LockMap;

    closed spec fn view(&self) -> LockMap {
        table_locks(self.table)
    }
}

impl LockManager {
    /// How many requests have been made so far.
    pub closed spec fn requests(self) -> nat {
        self.requests as nat
    }

    /// The requests that were granted while they waited, and have not taken up what they got.
    pub closed spec fn granted(self) -> Seq<LockWaker> {
        self.granted@
    }

    /// Every lock in the table is well-formed, and as what was granted says.
    pub open spec fn wf(self) -> bool {
        &&& self.requests() <= u64::MAX
        &&& settled(self@, self.granted(), self.requests())
        &&& forall|key: LockKey|
            #![trigger self@.contains_key(key)]
            self@.contains_key(key) ==> self@[key].wf(key, self.requests())
    }

    proof fn lemma_insert(before: LockTable, after: LockTable, key: LockKey, entry: LockEntry)
        requires
            after@ == before@.insert(key.spec_ordinal(), entry),
        ensures
            table_locks(after) == table_locks(before).insert(key, entry@),
    {
        let x = table_locks(after);
        let y = table_locks(before).insert(key, entry@);
        assert forall|k: LockKey| x.contains_key(k) == y.contains_key(k) && (x.contains_key(k)
            ==> x[k] == y[k]) by {
            lemma_ordinal_injective(k, key);
        }
        assert(x =~= y);
    }

    proof fn lemma_remove(before: LockTable, after: LockTable, key: LockKey)
        requires
            after@ == before@.remove(key.spec_ordinal()),
        ensures
            table_locks(after) == table_locks(before).remove(key),
    {
        let x = table_locks(after);
        let y = table_locks(before).remove(key);
        assert forall|k: LockKey| x.contains_key(k) == y.contains_key(k) && (x.contains_key(k)
            ==> x[k] == y[k]) by {
            lemma_ordinal_injective(k, key);
        }
        assert(x =~= y);
    }

    /// Creates a lock manager that holds no locks.
    pub fn new() -> (manager: Self)
        ensures
            manager.wf(),
            manager@ == Map::<LockKey, EntryView>::empty(),
            manager.requests() == 0,
            manager.granted() == Seq::<LockWaker>::empty(),
    {
        let manager = LockManager { table: fx_map_default(), requests: 0, granted: Ghost(Seq::empty()) };
        assert(manager@ =~= Map::<LockKey, EntryView>::empty());
        manager
    }

    /// Takes the entry for `key` out of the table.
    fn take_entry(&mut self, key: LockKey) -> (entry: LockEntry)
        requires
            old(self)@.contains_key(key),
        ensures
            entry@ == old(self)@[key],
            final(self)@ == old(self)@.remove(key),
            final(self).requests() == old(self).requests(),
            final(self).granted() == old(self).granted(),
    {
        let ghost before = self.table;
        let removed = table_remove(&mut self.table, &key.ordinal());
        proof {
            Self::lemma_remove(before, self.table, key);
            assert(before == old(self).table);
        }
        removed.unwrap()
    }

    /// Puts `entry` in the table unless nobody holds it.
    fn put_entry(&mut self, key: LockKey, entry: LockEntry)
        requires
            !old(self)@.contains_key(key),
        ensures
            final(self)@ == store(old(self)@, key, entry@),
            final(self).requests() == old(self).requests(),
            final(self).granted() == old(self).granted(),
    {
        if !entry.can_remove() {
            let ghost before = self.table;
            let ghost put = entry;
            let _ = table_insert(&mut self.table, key.ordinal(), entry);
            proof {
                Self::lemma_insert(before, self.table, key, put);
                assert(before == old(self).table);
            }
        } else {
            assert(self@.remove(key) =~= self@);
        }
    }

    /// Requests the lock `key`.  If it cannot be granted at once, the request queues up and its
    /// waker is returned.
    pub fn lock_key(&mut self, key: LockKey, target_state: LockState) -> (waker: Option<LockWaker>)
        requires
            old(self).wf(),
            old(self).requests() < u64::MAX,
        ensures
            final(self).wf(),
            final(self).requests() == old(self).requests() + 1,
            final(self).granted() == old(self).granted(),
            match waker {
                None => {
                    &&& lookup(old(self)@, key).grants(target_state)
                    &&& final(self)@ == old(self)@.insert(
                        key,
                        lookup(old(self)@, key).granted(target_state),
                    )
                },
                Some(waker) => {
                    &&& !lookup(old(self)@, key).grants(target_state)
                    &&& old(self)@.contains_key(key)
                    &&& waker == new_waker(old(self).requests(), key, target_state, false)
                    &&& final(self)@ == old(self)@.insert(key, old(self)@[key].queued(waker))
                },
            },
    {
        let id: u64 = self.requests;
        self.requests = id + 1;
        let mut entry = if table_contains(&self.table, &key.ordinal()) {
            assert(self@.contains_key(key));
            assert(old(self)@.contains_key(key));
            self.take_entry(key)
        } else {
            LockEntry { read_count: 0, state: LockState::ReadLock, waiters: Vec::new() }
        };
        let ghost before = entry@;
        assert(self@ =~= old(self)@.remove(key));
        assert(before =~= lookup(old(self)@, key));
        let is_head = entry.waiters.len() == 0;
        let waker = if entry.is_allowed(target_state, is_head) {
            entry.grant(target_state);
            None
        } else {
            let waker = LockWaker { id, key, target_state, is_upgrade: false };
            entry.waiters.push(waker);
            Some(waker)
        };
        proof {
            assert(entry@.wf(key, (id + 1) as nat));
        }
        let ghost stored = entry@;
        self.put_entry(key, entry);
        proof {
            assert(self@ =~= old(self)@.insert(key, stored));
            lemma_lock_settles(
                old(self)@,
                self.granted(),
                key,
                old(self).requests(),
                target_state,
                waker,
            );
        }
        waker
    }

    /// Gives up a hold on the lock `key` and grants the requests that can now proceed, whose wakers
    /// it returns.
    pub fn drop_lock(&mut self, key: LockKey, state: LockState) -> (woken: Vec<LockWaker>)
        requires
            old(self).wf(),
            can_release(old(self)@, old(self).granted(), key, state),
        ensures
            final(self).wf(),
            final(self).requests() == old(self).requests(),
            final(self).granted() == old(self).granted() + woken@,
            woken@ == old(self)@[key].release_wakers(state),
            final(self)@ == store(old(self)@, key, old(self)@[key].released(state)),
    {
        let mut entry = self.take_entry(key);
        let ghost before = entry@;
        let wake = match state {
            LockState::ReadLock => {
                entry.read_count -= 1;
                entry.read_count == 0
            },
            // Locked and WriteLock are treated the same.
            LockState::Locked | LockState::WriteLock => {
                entry.state = LockState::ReadLock;
                true
            },
        };
        assert(entry@ =~= before.given_up(state));
        let woken = if wake {
            proof {
                if entry@.held() || entry@.waiters.len() > 0 {
                    lemma_woken_wf(entry@, key, self.requests());
                }
            }
            entry.wake()
        } else {
            Vec::new()
        };
        let ghost stored = entry@;
        self.put_entry(key, entry);
        proof {
            assert(old(self)@.remove(key).insert(key, stored) =~= old(self)@.insert(key, stored));
            assert(old(self)@.remove(key).remove(key) =~= old(self)@.remove(key));
            self.granted@ = self.granted@ + woken@;
            lemma_release_settles(
                old(self)@,
                old(self).granted(),
                key,
                old(self).requests(),
                state,
            );
        }
        woken
    }

    /// Turns the write lock `key` into a transaction lock and grants the requests that can now
    /// proceed, whose wakers it returns.
    pub fn downgrade_lock(&mut self, key: LockKey) -> (woken: Vec<LockWaker>)
        requires
            old(self).wf(),
            taken_up(old(self)@, old(self).granted(), key),
            old(self)@[key].state == LockState::WriteLock,
        ensures
            final(self).wf(),
            final(self).requests() == old(self).requests(),
            final(self).granted() == old(self).granted() + woken@,
            woken@ == old(self)@[key].downgraded().wakers(),
            final(self)@ == old(self)@.insert(key, old(self)@[key].downgraded().woken()),
    {
        let mut entry = self.take_entry(key);
        entry.state = LockState::Locked;
        proof {
            lemma_woken_wf(entry@, key, self.requests());
        }
        let woken = entry.wake();
        let ghost stored = entry@;
        self.put_entry(key, entry);
        proof {
            assert(self@ =~= old(self)@.insert(key, stored));
            self.granted@ = self.granted@ + woken@;
            lemma_downgrade_settles(*old(self), key);
        }
        woken
    }

    /// Upgrades the transaction lock `key` to a write lock.  If there are readers, the upgrade waits
    /// for them before everything else that waits, and its waker is returned.
    pub fn commit_prepare_key(&mut self, key: LockKey) -> (waker: Option<LockWaker>)
        requires
            old(self).wf(),
            old(self).requests() < u64::MAX,
            holds_lock(old(self)@, old(self).granted(), key, LockState::Locked),
        ensures
            final(self).wf(),
            final(self).requests() == old(self).requests() + 1,
            final(self).granted() == old(self).granted(),
            match waker {
                None => {
                    &&& old(self)@[key].read_count == 0
                    &&& final(self)@ == old(self)@.insert(
                        key,
                        old(self)@[key].granted(LockState::WriteLock),
                    )
                },
                Some(waker) => {
                    &&& old(self)@[key].read_count > 0
                    &&& waker == new_waker(
                        old(self).requests(),
                        key,
                        LockState::WriteLock,
                        true,
                    )
                    &&& final(self)@ == old(self)@.insert(key, old(self)@[key].queued_first(waker))
                },
            },
    {
        let id: u64 = self.requests;
        let mut entry = self.take_entry(key);
        self.requests = id + 1;
        let ghost before = entry@;
        let waker = if entry.read_count == 0 {
            entry.state = LockState::WriteLock;
            None
        } else {
            let waker = LockWaker {
                id,
                key,
                target_state: LockState::WriteLock,
                is_upgrade: true,
            };
            entry.waiters.insert(0, waker);
            assert(entry.waiters@ =~= seq![waker] + before.waiters);
            Some(waker)
        };
        proof {
            let e = entry@;
            assert(e.wf(key, (id + 1) as nat)) by {
                assert forall|i: int| #![trigger e.waiters[i]] 0 <= i < e.waiters.len() implies {
                    &&& e.waiters[i].id < id + 1
                    &&& e.waiters[i].key == key
                    &&& e.waiters[i].is_upgrade ==> e.waiters[i].target_state
                        == LockState::WriteLock
                } by {
                    if waker is Some && i > 0 {
                        assert(e.waiters[i] == before.waiters[i - 1]);
                    } else if waker is None {
                        assert(e.waiters[i] == before.waiters[i]);
                    }
                }
                assert forall|i: int, j: int|
                    #![trigger e.waiters[i], e.waiters[j]]
                    0 <= i < j < e.waiters.len() implies e.waiters[i].id != e.waiters[j].id by {
                    if waker is Some {
                        assert(e.waiters[j] == before.waiters[j - 1]);
                        if i > 0 {
                            assert(e.waiters[i] == before.waiters[i - 1]);
                        }
                    } else {
                        assert(e.waiters[i] == before.waiters[i]);
                        assert(e.waiters[j] == before.waiters[j]);
                    }
                }
            }
        }
        let ghost stored = entry@;
        self.put_entry(key, entry);
        proof {
            assert(self@ =~= old(self)@.insert(key, stored));
            lemma_upgrade_settles(old(self)@, self.granted(), key, old(self).requests(), waker);
        }
        waker
    }

    /// Removes `waker` from the list of those that wait.  Where it was the first, requests that can
    /// now proceed are granted, and their wakers are returned.
    pub fn remove_waker(&mut self, waker: &LockWaker) -> (woken: Vec<LockWaker>)
        requires
            old(self).wf(),
            old(self)@.contains_key(waker.key),
            old(self)@[waker.key].waiters.contains(*waker),
        ensures
            final(self).wf(),
            final(self).requests() == old(self).requests(),
            final(self).granted() == old(self).granted() + woken@,
            waker_removed(old(self)@, final(self)@, *waker, woken@),
    {
        let key = waker.key;
        let mut entry = self.take_entry(key);
        let ghost before = entry@;
        let count: usize = entry.waiters.len();
        let mut index: usize = 0;
        while entry.waiters[index].id != waker.id
            invariant
                index < count == entry.waiters@.len(),
                entry@ == before,
                before.waiters.contains(*waker),
                forall|i: int| 0 <= i < index ==> (#[trigger] before.waiters[i]).id != waker.id,
            decreases entry.waiters@.len() - index,
        {
            proof {
                let at = choose|i: int|
                    0 <= i < before.waiters.len() && before.waiters[i] == *waker;
                assert(before.waiters[at].id == waker.id);
            }
            index += 1;
        }
        proof {
            let at = choose|i: int| 0 <= i < before.waiters.len() && before.waiters[i] == *waker;
            assert(before.waiters[at].id == before.waiters[index as int].id);
            assert(at == index);
        }
        let _ = entry.waiters.remove(index);
        let ghost removed = entry@;
        proof {
            assert(removed =~= before.without_waiter(index as int));
            assert forall|i: int| #![trigger removed.waiters[i]] 0 <= i < removed.waiters.len() implies
                removed.waiters[i] == before.waiters[if i < index { i } else { i + 1 }] by {}
            assert(removed.wf(key, self.requests()));
            assert(removed.downgraded().wf(key, self.requests()));
        }
        let woken = if index == 0 {
            // Readers might be able to proceed if this was a pending write lock.
            proof {
                lemma_woken_wf(removed, key, self.requests());
            }
            entry.wake()
        } else {
            Vec::new()
        };
        let ghost stored = entry@;
        self.put_entry(key, entry);
        proof {
            assert(self@ =~= old(self)@.insert(key, stored));
            assert(before.waiters[index as int] == *waker);
            self.granted@ = self.granted@ + woken@;
            lemma_without_waiter_settles(
                old(self)@,
                old(self).granted(),
                key,
                old(self).requests(),
                index as int,
            );
        }
        woken
    }

    /// Starts to acquire `lock_keys`, which are put in the order in which locks are acquired and
    /// stripped of repetitions.  `target_state` indicates the kind of lock required.  ReadLock means
    /// acquire a read lock.  Locked means lock other writers, but still allow readers.  WriteLock
    /// means acquire a write lock.
    pub fn lock(lock_keys: LockKeys, target_state: LockState) -> (request: LockRequest)
        ensures
            request.wf(),
            is_strictly_sorted(request.keys()),
            request.keys().to_set() == lock_keys@.to_set(),
            request.keys().len() <= lock_keys@.len(),
            request.target_state() == target_state,
            request.held() == 0,
            !request.is_waiting(),
    {
        let guard_keys = LockKeys::with_capacity(lock_keys.len());
        let mut keys = lock_keys;
        keys.sort_unstable();
        let ghost sorted = keys@;
        keys.dedup();
        proof {
            lemma_without_runs_of_sorted(sorted);
            lemma_same_multiset_same_set(lock_keys@, sorted);
            assert(guard_keys@ =~= keys@.take(0));
        }
        LockRequest { keys, target_state, guard_keys, waker: None }
    }

    /// Starts to acquire the locks of a transaction.  It is the caller's responsibility to ensure that
    /// drop_transaction is called when a transaction is dropped.
    pub fn txn_lock(lock_keys: LockKeys) -> (request: LockRequest)
        ensures
            request.wf(),
            is_strictly_sorted(request.keys()),
            request.keys().to_set() == lock_keys@.to_set(),
            request.keys().len() <= lock_keys@.len(),
            request.target_state() == LockState::Locked,
            request.held() == 0,
            !request.is_waiting(),
    {
        LockManager::lock(lock_keys, LockState::Locked)
    }

    /// Starts to acquire a read lock for the given keys.  Read locks are only blocked whilst a transaction
    /// is being committed for the same locks.  They are only necessary where consistency is
    /// required between different mutations within a transaction.  For example, a write might
    /// change the size and extents for an object, in which case a read lock is required so that
    /// observed size and extents are seen together or not at all.
    pub fn read_lock(lock_keys: LockKeys) -> (request: LockRequest)
        ensures
            request.wf(),
            is_strictly_sorted(request.keys()),
            request.keys().to_set() == lock_keys@.to_set(),
            request.keys().len() <= lock_keys@.len(),
            request.target_state() == LockState::ReadLock,
            request.held() == 0,
            !request.is_waiting(),
    {
        LockManager::lock(lock_keys, LockState::ReadLock)
    }

    /// Starts to acquire a write lock for the given keys.  Write locks provide exclusive access to the
    /// requested lock keys.
    pub fn write_lock(lock_keys: LockKeys) -> (request: LockRequest)
        ensures
            request.wf(),
            is_strictly_sorted(request.keys()),
            request.keys().to_set() == lock_keys@.to_set(),
            request.keys().len() <= lock_keys@.len(),
            request.target_state() == LockState::WriteLock,
            request.held() == 0,
            !request.is_waiting(),
    {
        LockManager::lock(lock_keys, LockState::WriteLock)
    }

    /// Acquires the locks of `request` one after the other, until one of them has to be waited for,
    /// whose waker is then returned.
    pub fn advance(&mut self, request: &mut LockRequest) -> (waker: Option<LockWaker>)
        requires
            old(self).wf(),
            old(request).wf(),
            !old(request).is_waiting(),
            old(self).requests() + old(request).keys().len() <= u64::MAX,
        ensures
            final(self).wf(),
            final(self).requests() <= old(self).requests() + old(request).keys().len() - old(
                request,
            ).held(),
            final(request).wf(),
            final(request).keys() == old(request).keys(),
            final(request).target_state() == old(request).target_state(),
            advanced(*old(self), *final(self), old(request).held(), *final(request), waker),
            final(self).granted() == old(self).granted(),
            old(request).is_held_by(*old(self)) ==> final(request).is_held_by(*final(self)),
    {
        let ghost keys = request.keys();
        let ghost start = request.held();
        let ghost target = request.target_state();
        let ghost (end, run) = lock_run(self@, keys.skip(start as int), target);
        proof {
            lemma_lock_run(self@, keys.skip(start as int), target);
        }
        while request.guard_keys.len() < request.keys.len()
            invariant
                self.wf(),
                request.wf(),
                !request.is_waiting(),
                request.keys() == keys,
                old(request).keys() == keys,
                request.target_state() == target,
                old(self).requests() + keys.len() <= u64::MAX,
                old(self).requests() <= self.requests(),
                start <= request.held() <= keys.len(),
                self.requests() == old(self).requests() + request.held() - start,
                (end, run) == lock_run(old(self)@, keys.skip(start as int), target),
                run <= keys.len() - start,
                lock_run(self@, keys.skip(request.held() as int), target).0 == end,
                lock_run(self@, keys.skip(request.held() as int), target).1 + request.held()
                    - start == run,
                old(request).held() == start,
                old(request).target_state() == target,
                self.granted() == old(self).granted(),
                old(request).is_held_by(*old(self)) ==> request.is_held_by(*self),
            decreases keys.len() - request.held(),
        {
            let index: usize = request.guard_keys.len();
            let key = request.keys.get(index);
            assert(keys.skip(index as int)[0] == key);
            assert(keys.skip(index as int).skip(1) =~= keys.skip(index + 1));
            let ghost before = *self;
            let ghost earlier = *request;
            match self.lock_key(key, request.target_state) {
                None => {
                    request.guard_keys.push(key);
                    proof {
                        assert(request.guard_keys@ =~= keys.take(index + 1));
                        assert(keys[index as int] == key);
                        if earlier.is_held_by(before) {
                            lemma_acquired_is_held(before, *self, earlier, *request);
                        }
                    }
                },
                Some(waker) => {
                    request.waker = Some(waker);
                    proof {
                        assert(keys[index as int] == key);
                        if earlier.is_held_by(before) {
                            lemma_queued_leaves_holds(before, *self, earlier, *request, waker);
                        }
                    }
                    return Some(waker);
                },
            }
        }
        assert(keys.skip(keys.len() as int) =~= Seq::empty());
        None
    }

    /// Goes on with a request that waited, once it has been granted the lock that it waited for.
    pub fn resume(&mut self, request: &mut LockRequest) -> (waker: Option<LockWaker>)
        requires
            old(self).wf(),
            old(request).wf(),
            old(request).is_waiting(),
            // The lock that it waited for was granted to it, and it has not taken it up yet.
            old(self).granted().contains(old(request).waker()->0),
            old(self).requests() + old(request).keys().len() <= u64::MAX,
        ensures
            final(self).wf(),
            final(self).granted() == without_grant(old(self).granted(), old(request).waker()->0),
            old(request).is_held_by(*old(self)) ==> final(request).is_held_by(*final(self)),
            final(self).requests() <= old(self).requests() + old(request).keys().len(),
            final(request).wf(),
            final(request).keys() == old(request).keys(),
            final(request).target_state() == old(request).target_state(),
            advanced(*old(self), *final(self), old(request).held() + 1, *final(request), waker),
    {
        let index: usize = request.guard_keys.len();
        let key = request.keys.get(index);
        let ghost waker = request.waker->0;
        proof {
            self.granted@ = without_grant(self.granted@, waker);
            lemma_take_up_settles(self@, old(self).granted(), waker, self.requests());
        }
        request.guard_keys.push(key);
        request.waker = None;
        proof {
            assert(request.guard_keys@ =~= request.keys().take(index + 1));
            if old(request).is_held_by(*old(self)) {
                lemma_granted_is_held(*old(self), *self, *old(request), *request);
            }
        }
        self.advance(request)
    }

    /// Returns the lock for `key`, if anybody holds it.
    pub fn entry(&self, key: &LockKey) -> (entry: Option<&LockEntry>)
        ensures
            match entry {
                Some(entry) => self@.contains_key(*key) && entry@ == self@[*key],
                None => !self@.contains_key(*key),
            },
    {
        table_get(&self.table, &key.ordinal())
    }

    /// Returns whether `lock_keys` can be given up, as far as the table shows: they are different from each
    /// other, and each of them is held as `state` says.
    pub fn can_drop(&self, lock_keys: &LockKeys, state: LockState) -> (can: bool)
        ensures
            can == shows_holds(self@, lock_keys@, state),
    {
        let mut index: usize = 0;
        while index < lock_keys.len()
            invariant
                index <= lock_keys@.len(),
                forall|i: int|
                    0 <= i < index ==> {
                        &&& self@.contains_key(#[trigger] lock_keys@[i])
                        &&& if state == LockState::ReadLock {
                            self@[lock_keys@[i]].read_count > 0
                        } else {
                            self@[lock_keys@[i]].state != LockState::ReadLock && !upgrade_waits(
                                self@[lock_keys@[i]],
                            )
                        }
                    },
            decreases lock_keys@.len() - index,
        {
            let key = lock_keys.get(index);
            assert(lock_keys@[index as int] == key);
            match self.entry(&key) {
                Some(entry) => {
                    if state == LockState::ReadLock {
                        if entry.read_count == 0 {
                            return false;
                        }
                    } else if entry.state == LockState::ReadLock {
                        return false;
                    } else if entry.waiters.len() > 0 && entry.waiters[0].is_upgrade {
                        return false;
                    }
                },
                None => {
                    return false;
                },
            }
            index += 1;
        }
        lock_keys.are_different()
    }

    /// Returns whether `lock_keys` are different from each other and each of them is held in `state`.
    pub fn are_in_state(&self, lock_keys: &LockKeys, state: LockState) -> (are: bool)
        ensures
            are == (lock_keys@.no_duplicates() && all_in_state(self@, lock_keys@, state)),
    {
        let mut index: usize = 0;
        while index < lock_keys.len()
            invariant
                index <= lock_keys@.len(),
                forall|i: int|
                    0 <= i < index ==> self@.contains_key(#[trigger] lock_keys@[i])
                        && self@[lock_keys@[i]].state == state,
            decreases lock_keys@.len() - index,
        {
            let key = lock_keys.get(index);
            assert(lock_keys@[index as int] == key);
            match self.entry(&key) {
                Some(entry) => {
                    if entry.state != state {
                        return false;
                    }
                },
                None => {
                    return false;
                },
            }
            index += 1;
        }
        lock_keys.are_different()
    }

    /// Gives up holds on all of `lock_keys`, first to last.  Returns the wakers of the requests
    /// that are granted.
    fn drop_locks(&mut self, lock_keys: &LockKeys, state: LockState) -> (woken: Vec<LockWaker>)
        requires
            old(self).wf(),
            droppable(*old(self), lock_keys@, state),
        ensures
            final(self).wf(),
            final(self).requests() == old(self).requests(),
            final(self).granted() == old(self).granted() + woken@,
            (final(self)@, woken@) == drop_run(old(self)@, lock_keys@, state),
    {
        let mut woken: Vec<LockWaker> = Vec::new();
        let mut index: usize = 0;
        assert(lock_keys@.take(0) =~= Seq::empty());
        while index < lock_keys.len()
            invariant
                index <= lock_keys@.len(),
                self.wf(),
                self.requests() == old(self).requests(),
                droppable(*old(self), lock_keys@, state),
                (self@, woken@) == drop_run(old(self)@, lock_keys@.take(index as int), state),
                self.granted() == old(self).granted() + woken@,
                forall|i: int|
                    index <= i < lock_keys@.len() ==> can_release(
                        self@,
                        self.granted(),
                        #[trigger] lock_keys@[i],
                        state,
                    ),
            decreases lock_keys@.len() - index,
        {
            let key = lock_keys.get(index);
            assert(lock_keys@[index as int] == key);
            let ghost before = *self;
            let ghost earlier = woken@;
            let mut more = self.drop_lock(key, state);
            proof {
                lemma_release_settles(before@, before.granted(), key, before.requests(), state);
                assert forall|i: int| index < i < lock_keys@.len() implies can_release(
                    self@,
                    self.granted(),
                    #[trigger] lock_keys@[i],
                    state,
                ) by {
                    let other = lock_keys@[i];
                    assert(other != key);
                    assert(can_release(before@, before.granted(), other, state));
                    assert(reader_grants(self.granted(), other) == reader_grants(
                        before.granted(),
                        other,
                    ));
                    assert(writer_granted(self.granted(), other) == writer_granted(
                        before.granted(),
                        other,
                    ));
                }
                assert(self.granted() =~= old(self).granted() + (earlier + more@));
            }
            woken.append(&mut more);
            proof {
                let taken = lock_keys@.take(index + 1);
                assert(taken.drop_last() =~= lock_keys@.take(index as int));
                assert(taken.last() == key);
            }
            index += 1;
        }
        assert(lock_keys@.take(lock_keys@.len() as int) =~= lock_keys@);
        woken
    }

    /// Gives up read locks.  Returns the wakers of the requests that are granted.
    pub fn drop_read_locks(&mut self, lock_keys: LockKeys) -> (woken: Vec<LockWaker>)
        requires
            old(self).wf(),
            droppable(*old(self), lock_keys@, LockState::ReadLock),
        ensures
            final(self).wf(),
            final(self).requests() == old(self).requests(),
            final(self).granted() == old(self).granted() + woken@,
            (final(self)@, woken@) == drop_run(old(self)@, lock_keys@, LockState::ReadLock),
    {
        self.drop_locks(&lock_keys, LockState::ReadLock)
    }

    /// Gives up transaction locks and write locks.  Returns the wakers of the requests that are
    /// granted.
    pub fn drop_write_locks(&mut self, lock_keys: LockKeys) -> (woken: Vec<LockWaker>)
        requires
            old(self).wf(),
            droppable(*old(self), lock_keys@, LockState::WriteLock),
        ensures
            final(self).wf(),
            final(self).requests() == old(self).requests(),
            final(self).granted() == old(self).granted() + woken@,
            (final(self)@, woken@) == drop_run(old(self)@, lock_keys@, LockState::WriteLock),
    {
        // This works for locks in either the Locked or WriteLock states.
        self.drop_locks(&lock_keys, LockState::WriteLock)
    }

    /// Downgrades locks from the WriteLock state to Locked state.  Returns the wakers of the
    /// requests that are granted.
    pub fn downgrade_locks(&mut self, lock_keys: &LockKeys) -> (woken: Vec<LockWaker>)
        requires
            old(self).wf(),
            lock_keys@.no_duplicates(),
            all_held(old(self)@, old(self).granted(), lock_keys@, LockState::WriteLock),
        ensures
            final(self).wf(),
            final(self).requests() == old(self).requests(),
            final(self).granted() == old(self).granted() + woken@,
            (final(self)@, woken@) == downgrade_run(old(self)@, lock_keys@),
    {
        let mut woken: Vec<LockWaker> = Vec::new();
        let mut index: usize = 0;
        assert(lock_keys@.take(0) =~= Seq::empty());
        while index < lock_keys.len()
            invariant
                index <= lock_keys@.len(),
                self.wf(),
                self.requests() == old(self).requests(),
                lock_keys@.no_duplicates(),
                (self@, woken@) == downgrade_run(old(self)@, lock_keys@.take(index as int)),
                self.granted() == old(self).granted() + woken@,
                forall|i: int|
                    index <= i < lock_keys@.len() ==> holds_lock(
                        self@,
                        self.granted(),
                        #[trigger] lock_keys@[i],
                        LockState::WriteLock,
                    ),
            decreases lock_keys@.len() - index,
        {
            let key = lock_keys.get(index);
            assert(lock_keys@[index as int] == key);
            let ghost before = *self;
            let ghost earlier = woken@;
            let mut more = self.downgrade_lock(key);
            proof {
                lemma_downgrade_settles(before, key);
                assert forall|i: int| index < i < lock_keys@.len() implies holds_lock(
                    self@,
                    self.granted(),
                    #[trigger] lock_keys@[i],
                    LockState::WriteLock,
                ) by {
                    let other = lock_keys@[i];
                    assert(other != key);
                    assert(holds_lock(before@, before.granted(), other, LockState::WriteLock));
                    assert(writer_granted(self.granted(), other) == writer_granted(
                        before.granted(),
                        other,
                    ));
                }
                assert(self.granted() =~= old(self).granted() + (earlier + more@));
            }
            woken.append(&mut more);
            proof {
                let taken = lock_keys@.take(index + 1);
                assert(taken.drop_last() =~= lock_keys@.take(index as int));
                assert(taken.last() == key);
            }
            index += 1;
        }
        assert(lock_keys@.take(lock_keys@.len() as int) =~= lock_keys@);
        woken
    }

    /// Prepares to commit by upgrading the transaction locks of `prepare`, one after the other,
    /// until readers have to be waited for; the waker of that upgrade is then returned.  Once it has
    /// been woken, calling this again goes on with the lock after it.
    pub fn commit_prepare_keys(&mut self, prepare: &mut CommitPrepare) -> (waker: Option<LockWaker>)
        requires
            old(self).wf(),
            old(prepare).wf(),
            old(self).requests() + old(prepare).keys().len() <= u64::MAX,
            old(prepare).keys().no_duplicates(),
            // An upgrade that was waited for was granted, and has not been taken up yet.
            old(prepare).waker() matches Some(waker) ==> old(self).granted().contains(waker),
            all_held(
                old(self)@,
                old(prepare).grants_left(*old(self)),
                old(prepare).keys().take(old(prepare).upgraded() as int),
                LockState::WriteLock,
            ),
            all_held(
                old(self)@,
                old(prepare).grants_left(*old(self)),
                old(prepare).keys().skip(old(prepare).upgraded() as int),
                LockState::Locked,
            ),
        ensures
            final(self).wf(),
            final(self).requests() <= old(self).requests() + old(prepare).keys().len() - old(
                prepare,
            ).upgraded(),
            final(self).granted() == old(prepare).grants_left(*old(self)),
            final(prepare).wf(),
            final(prepare).keys() == old(prepare).keys(),
            final(prepare).waker() == waker,
            prepared(*old(self), *final(self), old(prepare).upgraded(), *final(prepare), waker),
            // Those before the one that is waited for are upgraded, and those after it are not.
            all_held(
                final(self)@,
                final(self).granted(),
                final(prepare).keys().take(
                    final(prepare).upgraded() - (if waker is Some {
                        1int
                    } else {
                        0int
                    }),
                ),
                LockState::WriteLock,
            ),
            all_held(
                final(self)@,
                final(self).granted(),
                final(prepare).keys().skip(final(prepare).upgraded() as int),
                LockState::Locked,
            ),
            // Once nothing has to be waited for, all are upgraded.
            waker is None ==> all_held(
                final(self)@,
                final(self).granted(),
                final(prepare).keys(),
                LockState::WriteLock,
            ),
    {
        let ghost keys = prepare.keys();
        let ghost start = prepare.upgraded();
        let ghost (end, run) = prepare_run(self@, keys.skip(start as int));
        let ghost left = prepare.grants_left(*self);
        proof {
            if let Some(waker) = prepare.waker {
                self.granted@ = without_grant(self.granted@, waker);
                lemma_take_up_settles(self@, old(self).granted(), waker, self.requests());
            }
        }
        prepare.waker = None;
        while prepare.upgraded < prepare.keys.len()
            invariant
                self.wf(),
                prepare.wf(),
                prepare.waker() is None,
                prepare.keys() == keys,
                old(prepare).keys() == keys,
                keys.no_duplicates(),
                left == old(prepare).grants_left(*old(self)),
                self.granted() == left,
                old(self).requests() + keys.len() <= u64::MAX,
                start == old(prepare).upgraded(),
                start <= prepare.upgraded() <= keys.len(),
                self.requests() == old(self).requests() + prepare.upgraded() - start,
                (end, run) == prepare_run(old(self)@, keys.skip(start as int)),
                prepare_run(self@, keys.skip(prepare.upgraded() as int)).0 == end,
                prepare_run(self@, keys.skip(prepare.upgraded() as int)).1 + prepare.upgraded()
                    - start == run,
                all_held(
                    self@,
                    left,
                    keys.take(prepare.upgraded() as int),
                    LockState::WriteLock,
                ),
                all_held(self@, left, keys.skip(prepare.upgraded() as int), LockState::Locked),
            decreases keys.len() - prepare.upgraded(),
        {
            let index: usize = prepare.upgraded;
            let key = prepare.keys.get(index);
            let ghost rest = keys.skip(index as int);
            assert(rest[0] == key && rest[0] == keys[index as int]);
            assert(rest.skip(1) =~= keys.skip(index + 1));
            let ghost before = *self;
            let waker = self.commit_prepare_key(key);
            prepare.upgraded = index + 1;
            prepare.waker = waker;
            proof {
                lemma_upgrade_settles(before@, left, key, before.requests(), waker);
                let later = keys.skip(index + 1);
                assert forall|i: int| 0 <= i < later.len() implies holds_lock(
                    self@,
                    left,
                    #[trigger] later[i],
                    LockState::Locked,
                ) by {
                    assert(later[i] == rest[i + 1]);
                    assert(later[i] == keys[index + 1 + i]);
                    assert(keys[index + 1 + i] != keys[index as int]);
                    assert(holds_lock(before@, left, rest[i + 1], LockState::Locked));
                }
                let done = keys.take(index as int);
                assert forall|i: int| 0 <= i < done.len() implies holds_lock(
                    self@,
                    left,
                    #[trigger] done[i],
                    LockState::WriteLock,
                ) by {
                    assert(done[i] == keys[i]);
                    assert(keys[i] != keys[index as int]);
                    assert(holds_lock(before@, left, done[i], LockState::WriteLock));
                }
                let more = keys.take(index + 1);
                assert forall|i: int| 0 <= i < more.len() && waker is None implies holds_lock(
                    self@,
                    left,
                    #[trigger] more[i],
                    LockState::WriteLock,
                ) by {
                    if i < index {
                        assert(more[i] == done[i]);
                    }
                }
            }
            if waker.is_some() {
                return waker;
            }
        }
        proof {
            assert(keys.skip(keys.len() as int) =~= Seq::empty());
            assert(keys.take(keys.len() as int) =~= keys);
        }
        None
    }

    /// Gives up a request whose task went away while it waited.  If the request had been granted before
    /// that, the lock is given up again; otherwise the waker is removed from the list of those that
    /// wait.
    pub fn abandon<W>(&mut self, waker: &LockWaker, state: &WakerState<W>) -> (woken: Vec<LockWaker>)
        requires
            old(self).wf(),
            *state is Woken ==> old(self).granted().contains(*waker),
            *state is Woken && waker.is_upgrade ==> waker.target_state == LockState::WriteLock,
            !(*state is Woken) ==> old(self)@.contains_key(waker.key)
                && old(self)@[waker.key].waiters.contains(*waker),
        ensures
            final(self).wf(),
            final(self).requests() == old(self).requests(),
            final(self).granted() == (if *state is Woken {
                without_grant(old(self).granted(), *waker)
            } else {
                old(self).granted()
            }) + woken@,
            ({
                let entry = old(self)@[waker.key];
                if !(*state is Woken) {
                    waker_removed(old(self)@, final(self)@, *waker, woken@)
                } else if waker.is_upgrade {
                    &&& woken@ == entry.downgraded().wakers()
                    &&& final(self)@ == old(self)@.insert(waker.key, entry.downgraded().woken())
                } else {
                    &&& woken@ == entry.release_wakers(waker.target_state)
                    &&& final(self)@ == store(
                        old(self)@,
                        waker.key,
                        entry.released(waker.target_state),
                    )
                }
            }),
    {
        if state.is_woken() {
            proof {
                self.granted@ = without_grant(self.granted@, *waker);
                lemma_take_up_settles(self@, old(self).granted(), *waker, self.requests());
            }
            // We were woken, but didn't actually run, so we must drop the lock.
            if waker.is_upgrade {
                self.downgrade_lock(waker.key)
            } else {
                self.drop_lock(waker.key, waker.target_state)
            }
        } else {
            // We haven't been woken but we've been dropped so we must remove ourself from
            // the waker list.
            self.remove_waker(waker)
        }
    }
}

/// Locks that are being acquired in order.
pub struct LockRequest {
    keys: LockKeys,
    target_state: LockState,
    guard_keys: LockKeys,
    waker: Option<LockWaker>,
}

impl LockRequest {
    /// The keys to acquire, in order.
    pub closed spec fn keys(self) -> Seq<LockKey> {
        self.keys@
    }

    /// What the locks are acquired for.
    pub closed spec fn target_state(self) -> LockState {
        self.target_state
    }

    /// How many of the locks are held.
    pub closed spec fn held(self) -> nat {
        self.guard_keys@.len()
    }

    /// The waker of the lock that is waited for.
    pub closed spec fn waker(self) -> Option<LockWaker> {
        self.waker
    }

    /// The next lock has to be waited for.
    pub open spec fn is_waiting(self) -> bool {
        self.waker() is Some
    }

    /// The locks that are held are the first ones, and a lock that is waited for is the next one.
    pub closed spec fn wf(self) -> bool {
        &&& self.guard_keys@.len() <= self.keys@.len()
        &&& self.guard_keys@ == self.keys@.take(self.guard_keys@.len() as int)
        &&& self.waker matches Some(waker) ==> {
            &&& self.guard_keys@.len() < self.keys@.len()
            &&& waker.key == self.keys@[self.guard_keys@.len() as int]
            &&& waker.target_state == self.target_state
        }
    }

    /// The locks that the request has acquired are held and taken up.
    pub open spec fn is_held_by(self, manager: LockManager) -> bool {
        forall|i: int|
            0 <= i < self.held() ==> holds_lock(
                manager@,
                manager.granted(),
                #[trigger] self.keys()[i],
                self.target_state(),
            )
    }

    /// Returns the keys of the locks that are held: what a guard has to release.
    pub fn into_guard_keys(self) -> (guard_keys: LockKeys)
        requires
            self.wf(),
        ensures
            guard_keys@ == self.keys().take(self.held() as int),
            self.held() <= self.keys().len(),
    {
        self.guard_keys
    }
}

proof fn lemma_acquired_is_held(
    before: LockManager,
    after: LockManager,
    earlier: LockRequest,
    request: LockRequest,
)
    requires
        before.wf(),
        earlier.is_held_by(before),
        request.keys() == earlier.keys(),
        request.target_state() == earlier.target_state(),
        request.held() == earlier.held() + 1,
        request.held() <= request.keys().len(),
        after.granted() == before.granted(),
        ({
            let key = request.keys()[earlier.held() as int];
            let entry = lookup(before@, key);
            &&& entry.grants(request.target_state())
            &&& after@ == before@.insert(key, entry.granted(request.target_state()))
        }),
    ensures
        request.is_held_by(after),
{
    let key = request.keys()[earlier.held() as int];
    let target = request.target_state();
    lemma_lock_settles(before@, before.granted(), key, before.requests(), target, None);
    assert forall|i: int| 0 <= i < request.held() implies holds_lock(
        after@,
        after.granted(),
        #[trigger] request.keys()[i],
        target,
    ) by {
        if i < earlier.held() {
            assert(earlier.keys()[i] == request.keys()[i]);
        }
    }
}

proof fn lemma_queued_leaves_holds(
    before: LockManager,
    after: LockManager,
    earlier: LockRequest,
    request: LockRequest,
    waker: LockWaker,
)
    requires
        earlier.is_held_by(before),
        request.keys() == earlier.keys(),
        request.target_state() == earlier.target_state(),
        request.held() == earlier.held(),
        after.granted() == before.granted(),
        before@.contains_key(waker.key),
        !waker.is_upgrade,
        after@ == before@.insert(waker.key, before@[waker.key].queued(waker)),
    ensures
        request.is_held_by(after),
{
    assert forall|i: int| 0 <= i < request.held() implies holds_lock(
        after@,
        after.granted(),
        #[trigger] request.keys()[i],
        request.target_state(),
    ) by {
        assert(earlier.keys()[i] == request.keys()[i]);
    }
}

proof fn lemma_granted_is_held(
    before: LockManager,
    after: LockManager,
    earlier: LockRequest,
    request: LockRequest,
)
    requires
        before.wf(),
        earlier.wf(),
        earlier.is_held_by(before),
        earlier.is_waiting(),
        before.granted().contains(earlier.waker()->0),
        request.keys() == earlier.keys(),
        request.target_state() == earlier.target_state(),
        request.held() == earlier.held() + 1,
        after.granted() == without_grant(before.granted(), earlier.waker()->0),
        after@ == before@,
    ensures
        request.is_held_by(after),
{
    lemma_take_up_settles(before@, before.granted(), earlier.waker()->0, before.requests());
    assert forall|i: int| 0 <= i < request.held() implies holds_lock(
        after@,
        after.granted(),
        #[trigger] request.keys()[i],
        request.target_state(),
    ) by {
        if i < earlier.held() {
            assert(earlier.keys()[i] == request.keys()[i]);
            assert(holds_lock(
                before@,
                before.granted(),
                earlier.keys()[i],
                earlier.target_state(),
            ));
        }
    }
}

/// What is left of `locks` when `keys` are acquired for `target` until one has to be waited for,
/// and how many are acquired.
pub open spec fn lock_run(locks: LockMap, keys: Seq<LockKey>, target: LockState) -> (LockMap, nat)
    decreases keys.len(),
{
    if keys.len() > 0 && lookup(locks, keys[0]).grants(target) {
        let (end, count) = lock_run(
            locks.insert(keys[0], lookup(locks, keys[0]).granted(target)),
            keys.skip(1),
            target,
        );
        (end, count + 1)
    } else {
        (locks, 0)
    }
}

proof fn lemma_lock_run(locks: LockMap, keys: Seq<LockKey>, target: LockState)
    ensures
        lock_run(locks, keys, target).1 <= keys.len(),
    decreases keys.len(),
{
    if keys.len() > 0 && lookup(locks, keys[0]).grants(target) {
        lemma_lock_run(
            locks.insert(keys[0], lookup(locks, keys[0]).granted(target)),
            keys.skip(1),
            target,
        );
    }
}

/// `request`, which held `from` of its locks, acquired as many more as could be granted at once;
/// if that left one, it waits with `waker`.
pub open spec fn advanced(
    before: LockManager,
    after: LockManager,
    from: nat,
    request: LockRequest,
    waker: Option<LockWaker>,
) -> bool {
    let keys = request.keys();
    let (locks, run) = lock_run(before@, keys.skip(from as int), request.target_state());
    &&& request.held() == from + run
    &&& request.waker() == waker
    &&& match waker {
        None => {
            &&& request.held() == keys.len()
            &&& after@ == locks
        },
        Some(waker) => {
            let key = keys[request.held() as int];
            &&& request.held() < keys.len()
            &&& waker == new_waker(before.requests() + run, key, request.target_state(), false)
            &&& !lookup(locks, key).grants(request.target_state())
            &&& after@ == locks.insert(key, locks[key].queued(waker))
        },
    }
}

/// Transaction locks that are being upgraded in order.
pub struct CommitPrepare {
    keys: LockKeys,
    upgraded: usize,
    waker: Option<LockWaker>,
}

impl CommitPrepare {
    /// The keys to upgrade, in order.
    pub closed spec fn keys(self) -> Seq<LockKey> {
        self.keys@
    }

    /// How many of the locks are upgraded, the one that is waited for included.
    pub closed spec fn upgraded(self) -> nat {
        self.upgraded as nat
    }

    /// The waker of the upgrade that is waited for.
    pub closed spec fn waker(self) -> Option<LockWaker> {
        self.waker
    }

    /// An upgrade that is waited for is the last one.
    pub open spec fn wf(self) -> bool {
        &&& self.upgraded() <= self.keys().len()
        &&& self.waker() matches Some(waker) ==> {
            &&& self.upgraded() > 0
            &&& waker.key == self.keys()[self.upgraded() - 1]
            &&& waker.target_state == LockState::WriteLock
        }
    }

    /// What is granted and not taken up, once the upgrade that is waited for has been taken up.
    pub open spec fn grants_left(self, manager: LockManager) -> Seq<LockWaker> {
        match self.waker() {
            Some(waker) => without_grant(manager.granted(), waker),
            None => manager.granted(),
        }
    }

    /// Starts to upgrade `keys`.
    pub fn new(keys: LockKeys) -> (prepare: Self)
        ensures
            prepare.wf(),
            prepare.keys() == keys@,
            prepare.upgraded() == 0,
            prepare.waker() is None,
    {
        CommitPrepare { keys, upgraded: 0, waker: None }
    }
}

proof fn lemma_downgrade_settles(manager: LockManager, key: LockKey)
    requires
        manager.wf(),
        taken_up(manager@, manager.granted(), key),
        manager@[key].state == LockState::WriteLock,
    ensures
        ({
            let entry = manager@[key].downgraded();
            let granted = manager.granted() + entry.wakers();
            &&& settled(store(manager@, key, entry.woken()), granted, manager.requests())
            &&& forall|other: LockKey|
                #![trigger writer_granted(granted, other)]
                other != key ==> writer_granted(granted, other) == writer_granted(
                    manager.granted(),
                    other,
                )
        }),
{
    let before = manager@[key];
    let entry = before.downgraded();
    let grants = manager.granted();
    assert(entry_settled(before, key, grants));
    assert forall|i: int| #![trigger grants[i]] 0 <= i < grants.len() && grants[i].key == key implies (
    grants[i].target_state != LockState::ReadLock ==> entry.state == grants[i].target_state)
        && !entry.waiters.contains(grants[i]) by {
        if grants[i].target_state != LockState::ReadLock {
            assert(writer_granted(grants, key));
        }
    }
    assert(entry_settled(entry, key, grants));
    lemma_change_settles(manager@, grants, key, manager.requests(), entry);
}

/// All of `keys` are in the table, in `state`.
pub open spec fn all_in_state(locks: LockMap, keys: Seq<LockKey>, state: LockState) -> bool {
    forall|i: int|
        0 <= i < keys.len() ==> locks.contains_key(#[trigger] keys[i]) && locks[keys[i]].state
            == state
}

/// What is left of `locks` when `keys` are upgraded until readers have to be waited for, and how
/// many are upgraded.
pub open spec fn prepare_run(locks: LockMap, keys: Seq<LockKey>) -> (LockMap, nat)
    decreases keys.len(),
{
    if keys.len() > 0 && locks[keys[0]].read_count == 0 {
        let (end, count) = prepare_run(
            locks.insert(keys[0], locks[keys[0]].granted(LockState::WriteLock)),
            keys.skip(1),
        );
        (end, count + 1)
    } else {
        (locks, 0)
    }
}

/// `prepare`, which had upgraded `from` of its locks, upgraded as many more as had no readers; if
/// that left one, its upgrade waits with `waker`.
pub open spec fn prepared(
    before: LockManager,
    after: LockManager,
    from: nat,
    prepare: CommitPrepare,
    waker: Option<LockWaker>,
) -> bool {
    let keys = prepare.keys();
    let (locks, run) = prepare_run(before@, keys.skip(from as int));
    match waker {
        None => {
            &&& from + run == keys.len()
            &&& prepare.upgraded() == keys.len()
            &&& after@ == locks
        },
        Some(waker) => {
            let key = keys[(from + run) as int];
            &&& from + run < keys.len()
            &&& prepare.upgraded() == from + run + 1
            &&& waker == new_waker(before.requests() + run, key, LockState::WriteLock, true)
            &&& after@ == locks.insert(key, locks[key].queued_first(waker))
        },
    }
}

/// `keys` are different from each other and each has a hold that `state` describes, which was taken up.
pub open spec fn droppable(manager: LockManager, keys: Seq<LockKey>, state: LockState) -> bool {
    &&& keys.no_duplicates()
    &&& forall|i: int|
        0 <= i < keys.len() ==> can_release(
            manager@,
            manager.granted(),
            #[trigger] keys[i],
            state,
        )
}

/// `keys` are different from each other and, as far as the table shows, each has a hold that `state`
/// describes.
pub open spec fn shows_holds(locks: LockMap, keys: Seq<LockKey>, state: LockState) -> bool {
    &&& keys.no_duplicates()
    &&& forall|i: int|
        0 <= i < keys.len() ==> {
            &&& locks.contains_key(#[trigger] keys[i])
            &&& if state == LockState::ReadLock {
                locks[keys[i]].read_count > 0
            } else {
                locks[keys[i]].state != LockState::ReadLock && !upgrade_waits(locks[keys[i]])
            }
        }
}

/// All of `keys` are held in `state`, and taken up.
pub open spec fn all_held(
    locks: LockMap,
    grants: Seq<LockWaker>,
    keys: Seq<LockKey>,
    state: LockState,
) -> bool {
    forall|i: int|
        0 <= i < keys.len() ==> holds_lock(locks, grants, #[trigger] keys[i], state)
}

/// What is left of `locks` when a hold on each of `keys` is released, first to last, and the wakers
/// of the requests that are granted.
pub open spec fn drop_run(locks: LockMap, keys: Seq<LockKey>, state: LockState) -> (
    LockMap,
    Seq<LockWaker>,
)
    decreases keys.len(),
{
    if keys.len() == 0 {
        (locks, Seq::empty())
    } else {
        let (rest, woken) = drop_run(locks, keys.drop_last(), state);
        let key = keys.last();
        (store(rest, key, rest[key].released(state)), woken + rest[key].release_wakers(state))
    }
}

/// What is left of `locks` when each of `keys` is downgraded, first to last, and the wakers of the
/// requests that are granted.
pub open spec fn downgrade_run(locks: LockMap, keys: Seq<LockKey>) -> (LockMap, Seq<LockWaker>)
    decreases keys.len(),
{
    if keys.len() == 0 {
        (locks, Seq::empty())
    } else {
        let (rest, woken) = downgrade_run(locks, keys.drop_last());
        let key = keys.last();
        (
            rest.insert(key, rest[key].downgraded().woken()),
            woken + rest[key].downgraded().wakers(),
        )
    }
}

proof fn lemma_same_multiset_same_set(a: Seq<LockKey>, b: Seq<LockKey>)
    requires
        a.to_multiset() == b.to_multiset(),
    ensures
        a.to_set() == b.to_set(),
{
    broadcast use vstd::seq_lib::group_to_multiset_ensures;

    assert forall|key: LockKey| a.to_set().contains(key) <==> b.to_set().contains(key) by {
        assert(a.contains(key) <==> a.to_multiset().count(key) > 0);
        assert(b.contains(key) <==> b.to_multiset().count(key) > 0);
    }
    assert(a.to_set() =~= b.to_set());
}

/// The waker of a request.
pub open spec fn new_waker(
    id: nat,
    key: LockKey,
    target_state: LockState,
    is_upgrade: bool,
) -> LockWaker {
    LockWaker { id: id as u64, key, target_state, is_upgrade }
}

/// `after` is `before` without `waker`, and with what could then be granted granted, which is
/// `woken`.
pub open spec fn waker_removed(
    before: LockMap,
    after: LockMap,
    waker: LockWaker,
    woken: Seq<LockWaker>,
) -> bool {
    let entry = before[waker.key];
    exists|index: int|
        #![trigger entry.waiters[index]]
        {
            &&& 0 <= index < entry.waiters.len()
            &&& entry.waiters[index] == waker
            &&& if index == 0 {
                &&& woken == entry.without_waiter(0).wakers()
                &&& after == before.insert(waker.key, entry.without_waiter(0).woken())
            } else {
                &&& woken == Seq::<LockWaker>::empty()
                &&& after == before.insert(waker.key, entry.without_waiter(index))
            }
        }
}

/// Which locks can be acquired while which are held, where nothing waits: a read lock can be
/// acquired while read locks or a transaction lock is held, a transaction lock while read locks are
/// held, and a write lock never.
pub proof fn lemma_compatibility(entry: EntryView)
    requires
        entry.held(),
        entry.waiters.len() == 0,
    ensures
        entry.grants(LockState::ReadLock) <==> entry.state != LockState::WriteLock,
        entry.grants(LockState::Locked) <==> entry.state == LockState::ReadLock,
        !entry.grants(LockState::WriteLock),
{
}

/// A lock that nobody holds is granted to whoever asks.
pub proof fn lemma_free_lock_is_granted(locks: LockMap, key: LockKey, target: LockState)
    requires
        !locks.contains_key(key),
    ensures
        lookup(locks, key).grants(target),
{
}

/// A write lock is exclusive: while it is held there are no readers, and nothing is granted until
/// it is released or downgraded.
pub proof fn lemma_write_lock_is_exclusive(manager: LockManager, key: LockKey, target: LockState)
    requires
        manager.wf(),
        manager@.contains_key(key),
        manager@[key].state == LockState::WriteLock,
    ensures
        manager@[key].read_count == 0,
        !manager@[key].grants(target),
        manager@[key].wake_count() == 0,
{
}

/// A request holds a lock only once it was granted, and a lock that one request has for itself, and has
/// taken up, is granted to no other: it is neither granted at once to a request for it, nor was it
/// granted to one that waited.  A write lock keeps readers out too.
pub proof fn lemma_lock_has_one_holder(
    manager: LockManager,
    key: LockKey,
    target: LockState,
    waker: LockWaker,
)
    requires
        manager.wf(),
        taken_up(manager@, manager.granted(), key),
        waker.key == key,
    ensures
        target != LockState::ReadLock ==> !lookup(manager@, key).grants(target),
        waker.target_state != LockState::ReadLock ==> !manager.granted().contains(waker),
        manager@[key].state == LockState::WriteLock ==> {
            &&& !lookup(manager@, key).grants(target)
            &&& !manager.granted().contains(waker)
            &&& reads_taken_up(manager@, manager.granted(), key) == 0
        },
{
    let granted = manager.granted();
    assert(entry_settled(manager@[key], key, granted));
    if granted.contains(waker) {
        let i = granted.index_of(waker);
        assert(granted[i] == waker);
        if waker.target_state == LockState::ReadLock {
            lemma_reader_granted(granted, i);
        } else {
            assert(writer_granted(granted, key));
        }
    }
}

proof fn lemma_run_avoids(locks: LockMap, keys: Seq<LockKey>, target: LockState, key: LockKey)
    requires
        locks.contains_key(key),
        locks[key].state != LockState::ReadLock,
    ensures
        forall|i: int|
            0 <= i < lock_run(locks, keys, target).1 && #[trigger] keys[i] == key ==> target
                == LockState::ReadLock && locks[key].state == LockState::Locked,
    decreases keys.len(),
{
    if keys.len() > 0 && lookup(locks, keys[0]).grants(target) {
        let next = locks.insert(keys[0], lookup(locks, keys[0]).granted(target));
        let rest = keys.skip(1);
        lemma_run_avoids(next, rest, target, key);
        lemma_lock_run(next, rest, target);
        assert forall|i: int|
            0 <= i < lock_run(locks, keys, target).1 && #[trigger] keys[i] == key implies target
            == LockState::ReadLock && locks[key].state == LockState::Locked by {
            if i > 0 {
                assert(rest[i - 1] == keys[i]);
            }
        }
    }
}

/// A request that goes on does not acquire a lock that another one has for itself; only reads of a
/// transaction lock are let through.
pub proof fn lemma_requests_exclude_each_other(
    before: LockManager,
    after: LockManager,
    from: nat,
    request: LockRequest,
    waker: Option<LockWaker>,
    key: LockKey,
    index: int,
)
    requires
        before.wf(),
        taken_up(before@, before.granted(), key),
        advanced(before, after, from, request, waker),
        from <= index < request.held() <= request.keys().len(),
        request.keys()[index] == key,
    ensures
        request.target_state() == LockState::ReadLock,
        before@[key].state == LockState::Locked,
{
    let rest = request.keys().skip(from as int);
    lemma_run_avoids(before@, rest, request.target_state(), key);
    assert(rest[index - from] == key);
}

/// Nobody waits for a lock that nobody holds.
pub proof fn lemma_waiters_wait_for_a_holder(manager: LockManager, key: LockKey)
    requires
        manager.wf(),
    ensures
        lookup(manager@, key).waiters.len() > 0 ==> lookup(manager@, key).held(),
{
}

/// When a hold on a lock is released, either somebody still holds the lock (which may be one of
/// those that waited), or nobody waits for it.
pub proof fn lemma_release_strands_nobody(
    manager: LockManager,
    key: LockKey,
    state: LockState,
)
    requires
        manager.wf(),
        manager@.contains_key(key),
        state == LockState::ReadLock ==> manager@[key].read_count > 0,
    ensures
        manager@[key].released(state).held() || manager@[key].released(state).waiters.len() == 0,
{
}

/// Acquiring a lock that nobody holds and then releasing it leaves everything as it was.
pub proof fn lemma_release_undoes_acquire(locks: LockMap, key: LockKey, target: LockState)
    requires
        !locks.contains_key(key),
    ensures
        store(
            locks.insert(key, EntryView::free().granted(target)),
            key,
            EntryView::free().granted(target).released(target),
        ) == locks,
{
    assert(locks.insert(key, EntryView::free().granted(target)).remove(key) =~= locks);
}

/// Reading a lock for which nobody waits, and then releasing it, leaves the lock as it was.
pub proof fn lemma_release_undoes_read(entry: EntryView)
    requires
        entry.waiters.len() == 0,
        entry.grants(LockState::ReadLock),
    ensures
        entry.granted(LockState::ReadLock).released(LockState::ReadLock) == entry,
{
}

/// A transaction lock lets reads through even if others wait for it, unless what waits first is its
/// own upgrade.
pub proof fn lemma_transaction_lock_lets_reads_through(entry: EntryView)
    requires
        entry.state == LockState::Locked,
        entry.waiters.len() > 0,
    ensures
        entry.grants(LockState::ReadLock) <==> !entry.waiters[0].is_upgrade,
{
}

/// While there are only readers, a request queues up behind whatever waits.
pub proof fn lemma_readers_queue_behind_waiters(entry: EntryView, target: LockState)
    requires
        entry.state == LockState::ReadLock,
        entry.waiters.len() > 0,
    ensures
        !entry.grants(target),
{
}

/// When the last reader leaves a transaction lock whose upgrade waits, the upgrade is granted, and
/// nothing else.
pub proof fn lemma_last_reader_lets_upgrade_through(entry: EntryView)
    requires
        entry.state == LockState::Locked,
        entry.read_count == 1,
        entry.waiters.len() > 0,
        entry.waiters[0].is_upgrade,
        entry.waiters[0].target_state == LockState::WriteLock,
    ensures
        entry.release_wakers(LockState::ReadLock) == seq![entry.waiters[0]],
        entry.released(LockState::ReadLock).state == LockState::WriteLock,
        entry.released(LockState::ReadLock).waiters == entry.waiters.skip(1),
{
    assert(entry.release_wakers(LockState::ReadLock) =~= seq![entry.waiters[0]]);
}

/// When the writer that waits first gives up while there are readers, the readers that waited
/// behind it proceed.
pub proof fn lemma_dropped_writer_lets_readers_through(entry: EntryView)
    requires
        entry.state == LockState::ReadLock,
        entry.waiters.len() > 1,
        entry.waiters[1].target_state == LockState::ReadLock,
        !entry.waiters[1].is_upgrade,
    ensures
        entry.without_waiter(0).wakers() == entry.waiters.subrange(
            1,
            1 + leading_readers(entry.waiters.skip(1)) as int,
        ),
        entry.without_waiter(0).woken().read_count == entry.read_count + leading_readers(
            entry.waiters.skip(1),
        ),
{
    let rest = entry.waiters.skip(1);
    assert(entry.waiters.remove(0) =~= rest);
    lemma_leading_readers(rest);
    assert(rest[0] == entry.waiters[1]);
    assert(leading_readers(rest) == 1 + leading_readers(rest.skip(1)));
    assert(entry.without_waiter(0).wakers() =~= entry.waiters.subrange(
        1,
        1 + leading_readers(rest) as int,
    ));
}

/// When a write lock is downgraded, the readers that wait first proceed, and it stays a transaction
/// lock.
pub proof fn lemma_downgrade_lets_readers_through(entry: EntryView)
    requires
        entry.state == LockState::WriteLock,
        entry.waiters.len() > 0,
        entry.waiters[0].target_state == LockState::ReadLock,
        !entry.waiters[0].is_upgrade,
    ensures
        entry.downgraded().wakers() == entry.waiters.take(leading_readers(entry.waiters) as int),
        entry.downgraded().woken().state == LockState::Locked,
        entry.downgraded().woken().read_count == entry.read_count + leading_readers(entry.waiters),
{
    assert(leading_readers(entry.waiters) == 1 + leading_readers(entry.waiters.skip(1)));
}

impl EntryView {
    /// The lock once requests for `wakers` have been granted one after the other.
    pub open spec fn granted_to_all(self, wakers: Seq<LockWaker>) -> EntryView
        decreases wakers.len(),
    {
        if wakers.len() == 0 {
            self
        } else {
            self.granted_to_all(wakers.drop_last()).granted(wakers.last().target_state)
        }
    }
}

/// Granting a read lock counts one reader more; granting any other lock gives the lock that state.  Those that wait
/// are not touched.
pub proof fn lemma_granting_counts_readers_or_sets_the_state(entry: EntryView, target: LockState)
    ensures
        ({
            let after = entry.granted(target);
            &&& target == LockState::ReadLock ==> after.read_count == entry.read_count + 1 && after.state
                == entry.state
            &&& target != LockState::ReadLock ==> after.read_count == entry.read_count && after.state == target
            &&& after.waiters == entry.waiters
            &&& after.held()
        }),
{
}

/// Requests wait in the order in which they came, but an upgrade waits before all others.  Waiting changes nothing
/// about who holds the lock.
pub proof fn lemma_requests_wait_in_order(entry: EntryView, waker: LockWaker)
    ensures
        entry.queued(waker).waiters.len() == entry.waiters.len() + 1,
        entry.queued(waker).waiters.last() == waker,
        forall|i: int|
            0 <= i < entry.waiters.len() ==> #[trigger] entry.queued(waker).waiters[i] == entry.waiters[i],
        entry.queued_first(waker).waiters.len() == entry.waiters.len() + 1,
        entry.queued_first(waker).waiters[0] == waker,
        forall|i: int|
            0 <= i < entry.waiters.len() ==> #[trigger] entry.waiters[i] == entry.queued_first(waker).waiters[
                i + 1],
        entry.queued(waker).state == entry.state && entry.queued(waker).read_count == entry.read_count,
        entry.queued_first(waker).state == entry.state && entry.queued_first(waker).read_count
            == entry.read_count,
{
}

/// What waits first goes on exactly if it would be granted to somebody who came anew while nobody waited; an upgrade
/// goes on as soon as there are no readers.
pub proof fn lemma_first_in_line_goes_on_when_it_could_be_granted(entry: EntryView)
    requires
        entry.waiters.len() > 0,
    ensures
        !entry.waiters[0].is_upgrade ==> (entry.wake_count() > 0 <==> (EntryView {
            waiters: Seq::empty(),
            ..entry
        }).grants(entry.waiters[0].target_state)),
        entry.waiters[0].is_upgrade ==> (entry.wake_count() > 0 <==> entry.read_count == 0 && entry.state
            != LockState::WriteLock),
{
}

/// When the first in line goes on, all readers right behind it go on with it, unless it keeps readers out; nobody
/// else does.
pub proof fn lemma_readers_behind_the_first_go_on_too(entry: EntryView)
    requires
        entry.wake_count() > 0,
    ensures
        entry.waiters[0].target_state == LockState::WriteLock ==> entry.wake_count() == 1,
        entry.waiters[0].target_state != LockState::WriteLock && entry.wake_count() < entry.waiters.len()
            ==> entry.waiters[entry.wake_count() as int].target_state != LockState::ReadLock,
        forall|i: int|
            0 < i < entry.wake_count() ==> (#[trigger] entry.waiters[i]).target_state
                == LockState::ReadLock,
{
    let rest = entry.waiters.skip(1);
    lemma_leading_readers(rest);
    assert forall|i: int| 0 < i < entry.wake_count() implies (#[trigger] entry.waiters[i]).target_state
        == LockState::ReadLock by {
        assert(rest[i - 1] == entry.waiters[i]);
    }
    if entry.waiters[0].target_state != LockState::WriteLock && entry.wake_count() < entry.waiters.len() {
        assert(rest[leading_readers(rest) as int] == entry.waiters[entry.wake_count() as int]);
    }
}

/// Waking requests grants each of them what it asked for, in order, and takes them off the line.
pub proof fn lemma_waking_grants_what_was_asked_for(entry: EntryView)
    ensures
        ({
            let left = EntryView { waiters: entry.waiters.skip(entry.wake_count() as int), ..entry };
            entry.woken() == left.granted_to_all(entry.wakers())
        }),
{
    let count = entry.wake_count();
    let wakers = entry.wakers();
    let left = EntryView { waiters: entry.waiters.skip(count as int), ..entry };
    lemma_wake_takes_prefix(entry);
    if count == 0 {
        assert(left.waiters =~= entry.waiters);
    } else {
        lemma_readers_behind_the_first_go_on_too(entry);
        assert(wakers.len() == count);
        let one = wakers.take(1);
        assert(one.drop_last() =~= Seq::empty());
        reveal_with_fuel(EntryView::granted_to_all, 2);
        assert(left.granted_to_all(one) == left.granted(wakers[0].target_state));
        assert forall|i: int| 0 < i < wakers.len() implies (#[trigger] wakers[i]).target_state
            == LockState::ReadLock by {
            assert(wakers[i] == entry.waiters[i]);
        }
        lemma_granted_to_readers(left, wakers, count as int);
        assert(wakers.take(count as int) =~= wakers);
    }
}

proof fn lemma_granted_to_readers(left: EntryView, wakers: Seq<LockWaker>, count: int)
    requires
        1 <= count <= wakers.len(),
        forall|i: int| 0 < i < wakers.len() ==> (#[trigger] wakers[i]).target_state == LockState::ReadLock,
        left.granted_to_all(wakers.take(1)) == left.granted(wakers[0].target_state),
    ensures
        left.granted_to_all(wakers.take(count)) == (EntryView {
            read_count: left.granted(wakers[0].target_state).read_count + (count - 1) as nat,
            ..left.granted(wakers[0].target_state)
        }),
    decreases count,
{
    if count > 1 {
        lemma_granted_to_readers(left, wakers, count - 1);
        assert(wakers.take(count).drop_last() =~= wakers.take(count - 1));
        assert(wakers.take(count).last() == wakers[count - 1]);
    }
}

/// Giving up a read lock counts one reader less, and giving up any other lock leaves it to the readers that there are.
/// Others go on only if it was not a read lock, or the last one.
pub proof fn lemma_giving_up_counts_back(entry: EntryView, state: LockState)
    requires
        state == LockState::ReadLock ==> entry.read_count > 0,
    ensures
        state == LockState::ReadLock ==> entry.given_up(state).read_count == entry.read_count - 1
            && entry.given_up(state).state == entry.state,
        state != LockState::ReadLock ==> entry.given_up(state).read_count == entry.read_count
            && entry.given_up(state).state == LockState::ReadLock,
        entry.given_up(state).waiters == entry.waiters,
        state == LockState::ReadLock && entry.read_count > 1 ==> entry.released(state) == entry.given_up(state)
            && entry.release_wakers(state).len() == 0,
        state != LockState::ReadLock || entry.read_count == 1 ==> entry.released(state) == entry.given_up(
            state,
        ).woken() && entry.release_wakers(state) == entry.given_up(state).wakers(),
        entry.release_wakers(state) + entry.released(state).waiters == entry.waiters,
{
    lemma_wake_takes_prefix(entry.given_up(state));
    assert(entry.release_wakers(state) + entry.released(state).waiters =~= entry.waiters);
}

/// Downgrading a lock keeps it for its transaction and lets readers in; it changes nothing else.
pub proof fn lemma_downgrading_keeps_the_lock(entry: EntryView)
    ensures
        entry.downgraded().state == LockState::Locked,
        entry.downgraded().read_count == entry.read_count,
        entry.downgraded().waiters == entry.waiters,
        entry.downgraded().held(),
        entry.waiters.len() == 0 ==> entry.downgraded().grants(LockState::ReadLock),
{
}

/// A lock is kept in the table exactly while somebody holds it; storing one lock leaves the others.
pub proof fn lemma_only_held_locks_are_kept(
    locks: LockMap,
    key: LockKey,
    entry: EntryView,
    other: LockKey,
)
    ensures
        entry.state != LockState::ReadLock || entry.read_count > 0 ==> store(locks, key, entry).contains_key(key)
            && store(locks, key, entry)[key] == entry,
        entry.state == LockState::ReadLock && entry.read_count == 0 ==> !store(
            locks,
            key,
            entry,
        ).contains_key(key),
        other != key ==> (store(locks, key, entry).contains_key(other) <==> locks.contains_key(other)),
        other != key && locks.contains_key(other) ==> store(locks, key, entry)[other] == locks[other],
        locks.contains_key(key) ==> lookup(locks, key) == locks[key],
        !locks.contains_key(key) ==> lookup(locks, key).read_count == 0 && lookup(locks, key).state
            == LockState::ReadLock && lookup(locks, key).waiters.len() == 0,
{
}

/// A request acquires its locks one after the other, each as a single request would, up to the first that is not
/// granted; it touches no other lock.
pub proof fn lemma_run_acquires_up_to_the_first_refusal(
    locks: LockMap,
    keys: Seq<LockKey>,
    target: LockState,
    other: LockKey,
)
    requires
        keys.no_duplicates(),
    ensures
        lock_run(locks, keys, target).1 <= keys.len(),
        forall|i: int|
            #![trigger keys[i]]
            0 <= i < lock_run(locks, keys, target).1 ==> lookup(locks, keys[i]).grants(target) && lock_run(
                locks,
                keys,
                target,
            ).0.contains_key(keys[i]) && lock_run(locks, keys, target).0[keys[i]] == lookup(
                locks,
                keys[i],
            ).granted(target),
        lock_run(locks, keys, target).1 < keys.len() ==> !lookup(
            locks,
            keys[lock_run(locks, keys, target).1 as int],
        ).grants(target),
        (forall|i: int| 0 <= i < lock_run(locks, keys, target).1 ==> #[trigger] keys[i] != other) ==> lookup(
            lock_run(locks, keys, target).0,
            other,
        ) == lookup(locks, other),
    decreases keys.len(),
{
    let (end, count) = lock_run(locks, keys, target);
    if keys.len() > 0 && lookup(locks, keys[0]).grants(target) {
        let next = locks.insert(keys[0], lookup(locks, keys[0]).granted(target));
        let rest = keys.skip(1);
        let (rest_end, rest_count) = lock_run(next, rest, target);
        assert(rest.no_duplicates());
        lemma_run_acquires_up_to_the_first_refusal(next, rest, target, other);
        lemma_run_acquires_up_to_the_first_refusal(next, rest, target, keys[0]);
        assert(rest_end == end && rest_count + 1 == count);
        assert forall|i: int| 0 <= i < rest_count implies #[trigger] rest[i] != keys[0] by {
            assert(keys[i + 1] == rest[i]);
        }
        assert(lookup(end, keys[0]).held());
        assert(end.contains_key(keys[0]));
        assert forall|i: int| #![trigger keys[i]] 0 <= i < count implies lookup(locks, keys[i]).grants(target)
            && end.contains_key(keys[i]) && end[keys[i]] == lookup(locks, keys[i]).granted(target) by {
            if i > 0 {
                assert(rest[i - 1] == keys[i]);
                assert(keys[i] != keys[0]);
            }
        }
        if count < keys.len() {
            assert(rest[count - 1] == keys[count as int]);
            assert(keys[count as int] != keys[0]);
        }
        if forall|i: int| 0 <= i < count ==> #[trigger] keys[i] != other {
            assert(keys[0] != other);
            assert forall|i: int| 0 <= i < rest_count implies #[trigger] rest[i] != other by {
                assert(keys[i + 1] == rest[i]);
            }
            assert(lookup(next, other) == lookup(locks, other));
        }
    }
}

/// Locks are upgraded one after the other up to the first that has readers; each of them keeps everything else out,
/// and no other lock is touched.
pub proof fn lemma_upgrades_go_up_to_the_first_reader(
    locks: LockMap,
    keys: Seq<LockKey>,
    other: LockKey,
)
    requires
        keys.no_duplicates(),
        forall|i: int| 0 <= i < keys.len() ==> locks.contains_key(#[trigger] keys[i]),
    ensures
        prepare_run(locks, keys).1 <= keys.len(),
        forall|i: int|
            #![trigger keys[i]]
            0 <= i < prepare_run(locks, keys).1 ==> locks[keys[i]].read_count == 0 && prepare_run(
                locks,
                keys,
            ).0.contains_key(keys[i]) && prepare_run(locks, keys).0[keys[i]] == (EntryView {
                state: LockState::WriteLock,
                ..locks[keys[i]]
            }),
        prepare_run(locks, keys).1 < keys.len() ==> locks[keys[prepare_run(
            locks,
            keys,
        ).1 as int]].read_count > 0,
        (forall|i: int| 0 <= i < prepare_run(locks, keys).1 ==> #[trigger] keys[i] != other) ==> lookup(
            prepare_run(locks, keys).0,
            other,
        ) == lookup(locks, other),
    decreases keys.len(),
{
    let (end, count) = prepare_run(locks, keys);
    if keys.len() > 0 && locks[keys[0]].read_count == 0 {
        let next = locks.insert(keys[0], locks[keys[0]].granted(LockState::WriteLock));
        let rest = keys.skip(1);
        let (rest_end, rest_count) = prepare_run(next, rest);
        assert(rest.no_duplicates());
        assert forall|i: int| 0 <= i < rest.len() implies next.contains_key(#[trigger] rest[i]) by {
            assert(keys[i + 1] == rest[i]);
        }
        lemma_upgrades_go_up_to_the_first_reader(next, rest, other);
        lemma_upgrades_go_up_to_the_first_reader(next, rest, keys[0]);
        assert(rest_end == end && rest_count + 1 == count);
        assert forall|i: int| 0 <= i < rest_count implies #[trigger] rest[i] != keys[0] by {
            assert(keys[i + 1] == rest[i]);
        }
        assert(lookup(end, keys[0]).held());
        assert(end.contains_key(keys[0]));
        assert forall|i: int| #![trigger keys[i]] 0 <= i < count implies locks[keys[i]].read_count == 0
            && end.contains_key(keys[i]) && end[keys[i]] == (EntryView {
            state: LockState::WriteLock,
            ..locks[keys[i]]
        }) by {
            if i > 0 {
                assert(rest[i - 1] == keys[i]);
                assert(keys[i] != keys[0]);
            }
        }
        if count < keys.len() {
            assert(rest[count - 1] == keys[count as int]);
            assert(keys[count as int] != keys[0]);
        }
        if forall|i: int| 0 <= i < count ==> #[trigger] keys[i] != other {
            assert(keys[0] != other);
            assert forall|i: int| 0 <= i < rest_count implies #[trigger] rest[i] != other by {
                assert(keys[i + 1] == rest[i]);
            }
            assert(lookup(next, other) == lookup(locks, other));
        }
    }
}

/// Giving up several locks gives up each of them as if it were the only one, and touches no other lock; those that go
/// on are those that waited for one of them.
pub proof fn lemma_each_lock_is_given_up(
    locks: LockMap,
    keys: Seq<LockKey>,
    state: LockState,
    index: int,
    other: LockKey,
    waker: LockWaker,
)
    requires
        keys.no_duplicates(),
        forall|i: int| 0 <= i < keys.len() ==> locks.contains_key(#[trigger] keys[i]),
    ensures
        0 <= index < keys.len() ==> {
            let left = locks[keys[index]].released(state);
            &&& drop_run(locks, keys, state).0.contains_key(keys[index]) <==> left.held()
            &&& left.held() ==> drop_run(locks, keys, state).0[keys[index]] == left
        },
        !keys.contains(other) ==> (drop_run(locks, keys, state).0.contains_key(other)
            <==> locks.contains_key(other)) && (locks.contains_key(other) ==> drop_run(
            locks,
            keys,
            state,
        ).0[other] == locks[other]),
        drop_run(locks, keys, state).1.contains(waker) ==> exists|i: int|
            0 <= i < keys.len() && #[trigger] locks[keys[i]].release_wakers(state).contains(waker),
        0 <= index < keys.len() && locks[keys[index]].release_wakers(state).contains(waker) ==> drop_run(
            locks,
            keys,
            state,
        ).1.contains(waker),
    decreases keys.len(),
{
    let (end, woken) = drop_run(locks, keys, state);
    if keys.len() > 0 {
        let rest = keys.drop_last();
        let last = keys.last();
        let (before, earlier) = drop_run(locks, rest, state);
        assert(keys[keys.len() - 1] == last);
        assert(!rest.contains(last)) by {
            if rest.contains(last) {
                let i = choose|i: int| 0 <= i < rest.len() && rest[i] == last;
                assert(keys[i] == last);
            }
        }
        assert forall|i: int| 0 <= i < rest.len() implies locks.contains_key(#[trigger] rest[i]) by {
            assert(keys[i] == rest[i]);
        }
        lemma_each_lock_is_given_up(locks, rest, state, index, other, waker);
        lemma_each_lock_is_given_up(locks, rest, state, index, last, waker);
        let mine = locks[last].release_wakers(state);
        assert(before[last] == locks[last]);
        assert(woken == earlier + mine);
        assert(end == store(before, last, locks[last].released(state)));
        if 0 <= index < keys.len() - 1 {
            assert(rest[index] == keys[index]);
            assert(keys[index] != last);
        }
        if !keys.contains(other) {
            assert(other != last);
            if rest.contains(other) {
                let i = choose|i: int| 0 <= i < rest.len() && rest[i] == other;
                assert(keys[i] == other);
            }
        }
        if woken.contains(waker) {
            let k = choose|k: int| 0 <= k < woken.len() && woken[k] == waker;
            if k < earlier.len() {
                assert(earlier[k] == waker);
                let i = choose|i: int|
                    0 <= i < rest.len() && #[trigger] locks[rest[i]].release_wakers(state).contains(waker);
                assert(locks[keys[i]].release_wakers(state).contains(waker));
            } else {
                assert(mine[k - earlier.len()] == waker);
                assert(locks[keys[keys.len() - 1]].release_wakers(state).contains(waker));
            }
        }
        if 0 <= index < keys.len() && locks[keys[index]].release_wakers(state).contains(waker) {
            if index < rest.len() {
                let k = choose|k: int| 0 <= k < earlier.len() && earlier[k] == waker;
                assert(woken[k] == waker);
            } else {
                let k = choose|k: int| 0 <= k < mine.len() && mine[k] == waker;
                assert(woken[earlier.len() + k] == waker);
            }
        }
    }
}

/// Downgrading several locks downgrades each of them, lets those go on that can, and touches no other lock.
pub proof fn lemma_each_lock_is_downgraded(
    locks: LockMap,
    keys: Seq<LockKey>,
    index: int,
    other: LockKey,
    waker: LockWaker,
)
    requires
        keys.no_duplicates(),
        forall|i: int| 0 <= i < keys.len() ==> locks.contains_key(#[trigger] keys[i]),
    ensures
        0 <= index < keys.len() ==> downgrade_run(locks, keys).0.contains_key(keys[index]) && downgrade_run(
            locks,
            keys,
        ).0[keys[index]] == (EntryView { state: LockState::Locked, ..locks[keys[index]] }).woken(),
        !keys.contains(other) ==> (downgrade_run(locks, keys).0.contains_key(other) <==> locks.contains_key(
            other,
        )) && (locks.contains_key(other) ==> downgrade_run(locks, keys).0[other] == locks[other]),
        0 <= index < keys.len() && (EntryView {
            state: LockState::Locked,
            ..locks[keys[index]]
        }).wakers().contains(waker) ==> downgrade_run(locks, keys).1.contains(waker),
    decreases keys.len(),
{
    let (end, woken) = downgrade_run(locks, keys);
    if keys.len() > 0 {
        let rest = keys.drop_last();
        let last = keys.last();
        let (before, earlier) = downgrade_run(locks, rest);
        assert(keys[keys.len() - 1] == last);
        assert(!rest.contains(last)) by {
            if rest.contains(last) {
                let i = choose|i: int| 0 <= i < rest.len() && rest[i] == last;
                assert(keys[i] == last);
            }
        }
        assert forall|i: int| 0 <= i < rest.len() implies locks.contains_key(#[trigger] rest[i]) by {
            assert(keys[i] == rest[i]);
        }
        lemma_each_lock_is_downgraded(locks, rest, index, other, waker);
        lemma_each_lock_is_downgraded(locks, rest, index, last, waker);
        let mine = locks[last].downgraded().wakers();
        assert(before[last] == locks[last]);
        assert(woken == earlier + mine);
        if 0 <= index < keys.len() - 1 {
            assert(rest[index] == keys[index]);
            assert(keys[index] != last);
        }
        if !keys.contains(other) {
            assert(other != last);
            if rest.contains(other) {
                let i = choose|i: int| 0 <= i < rest.len() && rest[i] == other;
                assert(keys[i] == other);
            }
        }
        if 0 <= index < keys.len() && (EntryView {
            state: LockState::Locked,
            ..locks[keys[index]]
        }).wakers().contains(waker) {
            if index < rest.len() {
                let k = choose|k: int| 0 <= k < earlier.len() && earlier[k] == waker;
                assert(woken[k] == waker);
            } else {
                let k = choose|k: int| 0 <= k < mine.len() && mine[k] == waker;
                assert(woken[earlier.len() + k] == waker);
            }
        }
    }
}

/// A request that has to wait waits for the first lock that it was refused, as what it asked for and behind everybody
/// else, and is told apart from all requests before it.
pub proof fn lemma_request_waits_for_what_was_refused(
    before: LockManager,
    after: LockManager,
    from: nat,
    request: LockRequest,
    waker: LockWaker,
)
    requires
        advanced(before, after, from, request, Some(waker)),
        before.requests() + request.held() - from <= u64::MAX,
        from <= request.held(),
    ensures
        request.held() < request.keys().len(),
        waker.key == request.keys()[request.held() as int],
        waker.target_state == request.target_state(),
        !waker.is_upgrade,
        waker.id >= before.requests(),
        after@.contains_key(waker.key),
        after@[waker.key].waiters.last() == waker,
        request.waker() == Some(waker),
{
}

/// A request that need not wait has all of its locks.
pub proof fn lemma_request_that_need_not_wait_has_all(
    before: LockManager,
    after: LockManager,
    from: nat,
    request: LockRequest,
)
    requires
        advanced(before, after, from, request, None),
    ensures
        request.held() == request.keys().len(),
        request.waker() is None,
{
}

/// An upgrade that has to wait waits before everybody else, for a lock that has readers; it is one to a write lock.
pub proof fn lemma_upgrade_waits_first(
    before: LockManager,
    after: LockManager,
    from: nat,
    prepare: CommitPrepare,
    waker: LockWaker,
)
    requires
        prepared(before, after, from, prepare, Some(waker)),
    ensures
        prepare.upgraded() >= 1,
        waker.key == prepare.keys()[prepare.upgraded() - 1],
        waker.target_state == LockState::WriteLock,
        waker.is_upgrade,
        after@.contains_key(waker.key),
        after@[waker.key].waiters[0] == waker,
{
}

/// A request that goes away leaves all others in line as they were, except that, if it was the first, those behind it
/// go on that can.  Other locks are not touched.
pub proof fn lemma_request_leaves_the_line(
    before: LockMap,
    after: LockMap,
    waker: LockWaker,
    woken: Seq<LockWaker>,
    other: LockKey,
)
    requires
        before.contains_key(waker.key),
        waker_removed(before, after, waker, woken),
    ensures
        after.contains_key(waker.key),
        exists|index: int|
            0 <= index < before[waker.key].waiters.len() && #[trigger] before[waker.key].waiters[index] == waker
                && woken + after[waker.key].waiters == before[waker.key].waiters.remove(index),
        before[waker.key].waiters[0] != waker ==> woken.len() == 0 && after[waker.key].read_count
            == before[waker.key].read_count && after[waker.key].state == before[waker.key].state,
        other != waker.key ==> (after.contains_key(other) <==> before.contains_key(other)),
        other != waker.key && before.contains_key(other) ==> after[other] == before[other],
{
    let entry = before[waker.key];
    let index = choose|index: int|
        #![trigger entry.waiters[index]]
        {
            &&& 0 <= index < entry.waiters.len()
            &&& entry.waiters[index] == waker
            &&& if index == 0 {
                &&& woken == entry.without_waiter(0).wakers()
                &&& after == before.insert(waker.key, entry.without_waiter(0).woken())
            } else {
                &&& woken == Seq::<LockWaker>::empty()
                &&& after == before.insert(waker.key, entry.without_waiter(index))
            }
        };
    lemma_wake_takes_prefix(entry.without_waiter(0));
    assert(entry.waiters[index] == waker);
    assert(woken + after[waker.key].waiters =~= entry.waiters.remove(index));
}

/// A request that has to wait waits for a lock that cannot be granted as things stand, once those before it have been.
pub proof fn lemma_only_what_is_refused_is_waited_for(
    before: LockManager,
    after: LockManager,
    from: nat,
    request: LockRequest,
    waker: LockWaker,
)
    requires
        advanced(before, after, from, request, Some(waker)),
    ensures
        ({
            let locks = lock_run(before@, request.keys().skip(from as int), request.target_state()).0;
            !lookup(locks, waker.key).grants(request.target_state())
        }),
{
}

/// Upgrades that need not wait are all done, for no lock among them has readers.
pub proof fn lemma_upgrades_that_need_not_wait_are_done(
    before: LockManager,
    after: LockManager,
    from: nat,
    prepare: CommitPrepare,
)
    requires
        prepared(before, after, from, prepare, None),
    ensures
        prepare.upgraded() == prepare.keys().len(),
        prepare_run(before@, prepare.keys().skip(from as int)).1 == prepare.keys().len() - from,
        after@ == prepare_run(before@, prepare.keys().skip(from as int)).0,
{
}

/// What is said of some locks is said of each of them, the first and the last as well: that it is in a state, that it is
/// held, that it can be given up, or that the table shows a hold on it.
pub proof fn lemma_what_is_said_of_locks_is_said_of_each(
    manager: LockManager,
    keys: Seq<LockKey>,
    state: LockState,
    index: int,
)
    requires
        0 <= index < keys.len(),
    ensures
        all_in_state(manager@, keys, state) ==> manager@.contains_key(keys[index]) && manager@[keys[index]].state
            == state,
        all_held(manager@, manager.granted(), keys, state) ==> holds_lock(
            manager@,
            manager.granted(),
            keys[index],
            state,
        ),
        droppable(manager, keys, state) ==> can_release(manager@, manager.granted(), keys[index], state),
        shows_holds(manager@, keys, state) ==> manager@.contains_key(keys[index]),
        shows_holds(manager@, keys, state) && state == LockState::ReadLock ==> manager@[keys[index]].read_count
            > 0,
        droppable(manager, keys, state) || shows_holds(manager@, keys, state) ==> keys.no_duplicates(),
{
}

/// What is said of some locks holds if it holds of each of them, and so of none.
pub proof fn lemma_nothing_is_said_of_no_locks(manager: LockManager, key: LockKey, state: LockState)
    ensures
        all_in_state(manager@, Seq::empty(), state),
        all_held(manager@, manager.granted(), Seq::empty(), state),
        droppable(manager, Seq::empty(), state),
        shows_holds(manager@, Seq::empty(), state),
        all_in_state(manager@, seq![key], state) <==> manager@.contains_key(key) && manager@[key].state == state,
        all_held(manager@, manager.granted(), seq![key], state) <==> holds_lock(
            manager@,
            manager.granted(),
            key,
            state,
        ),
        droppable(manager, seq![key], state) <==> can_release(manager@, manager.granted(), key, state),
{
    let one = seq![key];
    assert(one[0] == key);
}

/// The locks that a request has acquired are held; it waits if and only if it has a waker.
pub proof fn lemma_acquired_locks_are_held(request: LockRequest, manager: LockManager, index: int)
    ensures
        request.is_held_by(manager) && 0 <= index < request.held() ==> holds_lock(
            manager@,
            manager.granted(),
            request.keys()[index],
            request.target_state(),
        ),
        request.held() == 0 ==> request.is_held_by(manager),
        request.is_waiting() <==> request.waker() is Some,
{
}

/// Once an upgrade that was waited for is taken up, all else that was granted is left to be taken up.
pub proof fn lemma_other_grants_are_left(prepare: CommitPrepare, manager: LockManager, other: LockWaker)
    ensures
        prepare.waker() is None ==> prepare.grants_left(manager) == manager.granted(),
        prepare.waker() matches Some(waker) ==> manager.granted().contains(waker) ==> {
            &&& prepare.grants_left(manager).len() == manager.granted().len() - 1
            &&& other != waker ==> (prepare.grants_left(manager).contains(other)
                <==> manager.granted().contains(other))
        },
{
    if prepare.waker() is Some && manager.granted().contains(prepare.waker()->0) {
        let granted = manager.granted();
        let waker = prepare.waker()->0;
        let at = granted.index_of(waker);
        let left = prepare.grants_left(manager);
        assert(0 <= at < granted.len() && granted[at] == waker) by {
            let i = choose|i: int| 0 <= i < granted.len() && granted[i] == waker;
            assert(granted[i] == waker);
        }
        if other != waker && granted.contains(other) {
            let i = choose|i: int| 0 <= i < granted.len() && granted[i] == other;
            if i < at {
                assert(left[i] == other);
            } else {
                assert(left[i - 1] == other);
            }
        }
        if left.contains(other) {
            let i = choose|i: int| 0 <= i < left.len() && left[i] == other;
            if i < at {
                assert(granted[i] == other);
            } else {
                assert(granted[i + 1] == other);
            }
        }
    }
}

} // verus!
