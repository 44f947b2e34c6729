use fxfs::lock_keys::{LockKey, LockKeys};
use fxfs::lock_manager::{
    CommitPrepare, LockManager, LockRequest, LockState, LockWaker, WakerState,
};
use fxfs::transaction::Transaction;

fn keys() -> LockKeys {
    LockKeys::Inline(LockKey::object(1, 1))
}

fn two_keys() -> LockKeys {
    LockKeys::Vec(vec![LockKey::object(1, 2), LockKey::object(1, 1)])
}

// Takes a lock that nothing stands in the way of.
fn take(manager: &mut LockManager, keys: LockKeys, state: LockState) -> LockKeys {
    let mut request = LockManager::lock(keys, state);
    assert_eq!(manager.advance(&mut request), None);
    request.into_guard_keys()
}

// Asks for a lock that has to be waited for.
fn wait(manager: &mut LockManager, keys: LockKeys, state: LockState) -> (LockRequest, LockWaker) {
    let mut request = LockManager::lock(keys, state);
    let waker = manager.advance(&mut request).expect("lock was granted");
    (request, waker)
}

fn pending() -> WakerState<()> {
    WakerState::Pending
}

fn woken() -> WakerState<()> {
    WakerState::Woken
}

#[test]
fn test_drop_waiting_write_lock() {
    let mut manager = LockManager::new();
    let guard = take(&mut manager, keys(), LockState::ReadLock);
    let (_, waker) = wait(&mut manager, keys(), LockState::WriteLock);
    assert_eq!(manager.abandon(&waker, &pending()), vec![]);
    assert_eq!(manager.drop_read_locks(guard), vec![]);
    take(&mut manager, keys(), LockState::WriteLock);
}

#[test]
fn test_write_lock_blocks_everything() {
    let mut manager = LockManager::new();
    let guard = take(&mut manager, keys(), LockState::WriteLock);
    let (_, write_waker) = wait(&mut manager, keys(), LockState::WriteLock);
    assert_eq!(manager.abandon(&write_waker, &pending()), vec![]);
    let (_, read_waker) = wait(&mut manager, keys(), LockState::ReadLock);
    assert_eq!(manager.abandon(&read_waker, &pending()), vec![]);
    manager.drop_write_locks(guard);

    let guard = take(&mut manager, keys(), LockState::WriteLock);
    manager.drop_write_locks(guard);
    let guard = take(&mut manager, keys(), LockState::ReadLock);
    manager.drop_read_locks(guard);
}

#[test]
fn test_downgrade_locks() {
    let mut manager = LockManager::new();
    let mut request = LockManager::txn_lock(keys());
    assert_eq!(manager.advance(&mut request), None);
    let mut prepare = CommitPrepare::new(keys());
    assert_eq!(manager.commit_prepare_keys(&mut prepare), None);

    // Trying to acquire a read lock now should be blocked.
    let mut read_lock = LockManager::read_lock(keys());
    let waker = manager.advance(&mut read_lock).unwrap();

    // After downgrading, it should be possible to take a read lock.
    assert_eq!(manager.downgrade_locks(&keys()), vec![waker]);
    assert_eq!(manager.resume(&mut read_lock), None);
    assert_eq!(read_lock.into_guard_keys().len(), 1);
}

#[test]
fn test_dropped_write_lock_wakes() {
    let mut manager = LockManager::new();
    let _guard = take(&mut manager, keys(), LockState::ReadLock);

    // The write lock should be blocked because of the read lock.
    let (_, write_waker) = wait(&mut manager, keys(), LockState::WriteLock);

    // Another read lock should be blocked because of the write lock.
    let (mut read_lock, read_waker) = wait(&mut manager, keys(), LockState::ReadLock);

    // Dropping the write lock should allow the read lock to proceed.
    assert_eq!(manager.abandon(&write_waker, &pending()), vec![read_waker]);
    assert_eq!(manager.resume(&mut read_lock), None);
}

#[test]
fn test_drop_upgrade() {
    let mut manager = LockManager::new();
    let _guard = take(&mut manager, keys(), LockState::Locked);

    let mut prepare = CommitPrepare::new(keys());
    let read_guard = take(&mut manager, keys(), LockState::ReadLock);
    let waker = manager.commit_prepare_keys(&mut prepare).unwrap();
    assert!(waker.is_upgrade);

    // Dropping the read guard should wake the upgrade, which is then dropped without having run.
    assert_eq!(manager.drop_read_locks(read_guard), vec![waker]);
    assert_eq!(manager.abandon(&waker, &woken()), vec![]);

    // We should be able to still commit_prepare.
    assert_eq!(manager.commit_prepare_keys(&mut CommitPrepare::new(keys())), None);
}

#[test]
fn test_woken_upgrade_blocks_reads() {
    let mut manager = LockManager::new();
    // Start with a transaction lock.
    let guard = take(&mut manager, keys(), LockState::Locked);

    // Take a read lock.
    let read1 = take(&mut manager, keys(), LockState::ReadLock);

    // Try and upgrade the transaction lock, which should not be possible because of the read.
    let mut prepare = CommitPrepare::new(keys());
    let upgrade = manager.commit_prepare_keys(&mut prepare).unwrap();

    // Taking another read should also be blocked.
    let (mut read2, read2_waker) = wait(&mut manager, keys(), LockState::ReadLock);

    // Drop the first read and the upgrade should complete, but the second read should still be
    // blocked.
    assert_eq!(manager.drop_read_locks(read1), vec![upgrade]);
    assert_eq!(manager.commit_prepare_keys(&mut prepare), None);

    // If we drop the write lock now, the read should be unblocked.
    assert_eq!(manager.drop_write_locks(guard), vec![read2_waker]);
    assert_eq!(manager.resume(&mut read2), None);
}

#[test]
fn test_locks() {
    let mut manager = LockManager::new();
    let one = || LockKeys::Inline(LockKey::object_attribute(1, 2, 3));
    let two = || LockKeys::Inline(LockKey::object_attribute(2, 2, 3));
    let first = take(&mut manager, one(), LockState::Locked);
    // This should not block since it is a different key.
    let second = take(&mut manager, two(), LockState::Locked);
    // This should block until the first has completed.
    let (mut third, waker) = wait(&mut manager, one(), LockState::Locked);
    assert_eq!(manager.drop_write_locks(second), vec![]);
    assert_eq!(manager.drop_write_locks(first), vec![waker]);
    assert_eq!(manager.resume(&mut third), None);
}

#[test]
fn test_read_lock_after_write_lock() {
    let mut manager = LockManager::new();
    let one = || LockKeys::Inline(LockKey::object_attribute(1, 2, 3));
    let _transaction = take(&mut manager, one(), LockState::Locked);
    // Reads should not be blocked until the transaction is committed.
    let guard = take(&mut manager, one(), LockState::ReadLock);
    // The commit shouldn't proceed until we release our read lock.
    let mut prepare = CommitPrepare::new(one());
    let waker = manager.commit_prepare_keys(&mut prepare).unwrap();
    assert_eq!(manager.drop_read_locks(guard), vec![waker]);
    assert_eq!(manager.commit_prepare_keys(&mut prepare), None);
}

#[test]
fn test_write_lock_after_read_lock() {
    let mut manager = LockManager::new();
    let one = || LockKeys::Inline(LockKey::object_attribute(1, 2, 3));
    let guard = take(&mut manager, one(), LockState::ReadLock);
    let _transaction = take(&mut manager, one(), LockState::Locked);
    let mut prepare = CommitPrepare::new(one());
    let waker = manager.commit_prepare_keys(&mut prepare).unwrap();
    assert_eq!(manager.drop_read_locks(guard), vec![waker]);
    assert_eq!(manager.commit_prepare_keys(&mut prepare), None);
}

#[test]
fn test_drop_uncommitted_transaction() {
    let mut manager = LockManager::new();

    // Dropping while there's a reader.
    let mut transaction = Transaction::new(take(&mut manager, keys(), LockState::Locked));
    let read_lock = take(&mut manager, keys(), LockState::ReadLock);
    assert_eq!(manager.drop_read_locks(read_lock), vec![]);
    assert_eq!(manager.drop_transaction(&mut transaction), vec![]);

    // Dropping while there's no reader.
    let mut transaction = Transaction::new(take(&mut manager, keys(), LockState::Locked));
    assert_eq!(manager.drop_transaction(&mut transaction), vec![]);

    // Make sure we can take the lock again (i.e. it was actually released).
    take(&mut manager, keys(), LockState::Locked);
}

#[test]
fn locks_are_taken_in_order_and_only_once() {
    let mut manager = LockManager::new();
    let mut all = two_keys();
    all.push(LockKey::object(1, 2));
    let guard = take(&mut manager, all, LockState::WriteLock);
    assert_eq!(
        guard.iter().copied().collect::<Vec<_>>(),
        vec![LockKey::object(1, 1), LockKey::object(1, 2)]
    );
}

#[test]
fn a_request_holds_what_it_got_while_it_waits() {
    let mut manager = LockManager::new();
    let second = take(
        &mut manager,
        LockKeys::Inline(LockKey::object(1, 2)),
        LockState::WriteLock,
    );
    let (mut request, waker) = wait(&mut manager, two_keys(), LockState::Locked);
    assert_eq!(waker.key, LockKey::object(1, 2));
    // The first key is taken.
    let (_, other) = wait(&mut manager, keys(), LockState::Locked);
    assert_eq!(manager.drop_write_locks(second), vec![waker]);
    assert_eq!(manager.resume(&mut request), None);
    assert_eq!(manager.drop_write_locks(request.into_guard_keys()), vec![other]);
}

#[test]
fn readers_are_woken_together() {
    let mut manager = LockManager::new();
    let guard = take(&mut manager, keys(), LockState::WriteLock);
    let (mut first, first_waker) = wait(&mut manager, keys(), LockState::ReadLock);
    let (mut second, second_waker) = wait(&mut manager, keys(), LockState::ReadLock);
    let (mut writer, writer_waker) = wait(&mut manager, keys(), LockState::WriteLock);
    let (_, third_waker) = wait(&mut manager, keys(), LockState::ReadLock);
    assert_eq!(manager.drop_write_locks(guard), vec![first_waker, second_waker]);
    assert_eq!(manager.resume(&mut first), None);
    assert_eq!(manager.resume(&mut second), None);
    assert_eq!(manager.drop_read_locks(first.into_guard_keys()), vec![]);
    assert_eq!(manager.drop_read_locks(second.into_guard_keys()), vec![writer_waker]);
    assert_eq!(manager.resume(&mut writer), None);
    assert_eq!(manager.drop_write_locks(writer.into_guard_keys()), vec![third_waker]);
}

#[test]
fn a_write_lock_has_one_holder() {
    let mut manager = LockManager::new();
    let first = take(&mut manager, keys(), LockState::WriteLock);
    let (mut second, waker) = wait(&mut manager, keys(), LockState::WriteLock);
    let (_, other) = wait(&mut manager, keys(), LockState::Locked);
    // Nothing is granted while the first holds the lock, and only one request is after that.
    assert_eq!(manager.entry(&LockKey::object(1, 1)).unwrap().waiters, vec![waker, other]);
    assert_eq!(manager.drop_write_locks(first), vec![waker]);
    assert_eq!(manager.entry(&LockKey::object(1, 1)).unwrap().waiters, vec![other]);
    assert_eq!(manager.resume(&mut second), None);
    assert!(manager.are_in_state(&keys(), LockState::WriteLock));
}

#[test]
fn a_woken_reader_that_went_away_gives_up_its_lock() {
    let mut manager = LockManager::new();
    let guard = take(&mut manager, keys(), LockState::WriteLock);
    let (_, reader) = wait(&mut manager, keys(), LockState::ReadLock);
    let (_, writer) = wait(&mut manager, keys(), LockState::WriteLock);
    assert_eq!(manager.drop_write_locks(guard), vec![reader]);
    assert_eq!(manager.abandon(&reader, &woken()), vec![writer]);
}

#[test]
fn tasks_register_until_they_are_woken() {
    let mut state: WakerState<&str> = WakerState::Pending;
    assert!(!state.poll("first"));
    assert!(!state.poll("second"));
    assert_eq!(state.wake(), Some("second"));
    assert!(state.is_woken());
    assert!(state.poll("third"));
    assert_eq!(state.wake(), None);

    // Woken before it was polled.
    let mut state: WakerState<&str> = WakerState::Pending;
    assert_eq!(state.wake(), None);
    assert!(state.poll("first"));
}

#[test]
fn locks_that_are_held_can_be_given_up() {
    let mut manager = LockManager::new();
    assert!(manager.entry(&LockKey::object(1, 1)).is_none());
    assert!(!manager.can_drop(&keys(), LockState::ReadLock));
    assert!(!manager.are_in_state(&keys(), LockState::Locked));
    let guard = take(&mut manager, two_keys(), LockState::Locked);
    assert!(manager.are_in_state(&guard, LockState::Locked));
    assert!(!manager.are_in_state(&guard, LockState::WriteLock));
    assert!(manager.can_drop(&guard, LockState::WriteLock));
    // There are no readers.
    assert!(!manager.can_drop(&keys(), LockState::ReadLock));
    let reader = take(&mut manager, keys(), LockState::ReadLock);
    assert!(manager.can_drop(&reader, LockState::ReadLock));
    assert_eq!(manager.entry(&LockKey::object(1, 1)).map(|entry| entry.read_count), Some(1));
    // No lock is given up twice.
    let twice = LockKeys::Vec(vec![LockKey::object(1, 1), LockKey::object(1, 1)]);
    assert!(!manager.can_drop(&twice, LockState::WriteLock));
    assert!(!manager.are_in_state(&twice, LockState::Locked));
}
