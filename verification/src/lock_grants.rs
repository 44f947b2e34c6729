//! The requests for locks that were granted while they waited, until they take up what they got.
//!
//! Between the moment that a waiting request is granted its lock and the moment that its task goes on,
//! the table shows the lock as held, but nobody holds it yet.
use crate::lock_keys::LockKey;
use crate::lock_manager::{
    lemma_readers_are_woken_together, lemma_wake_takes_prefix, lookup, store, EntryView, LockMap,
    LockState, LockWaker,
};
use vstd::prelude::*;

verus! {

/// How many requests to read `key` were granted and not taken up.
pub open spec fn reader_grants(grants: Seq<LockWaker>, key: LockKey) -> nat
    decreases grants.len(),
{
    if grants.len() == 0 {
        0
    } else {
        let before = reader_grants(grants.drop_last(), key);
        if grants.last().key == key && grants.last().target_state == LockState::ReadLock {
            before + 1
        } else {
            before
        }
    }
}

/// A request to have `key` for itself was granted and not taken up.
pub open spec fn writer_granted(grants: Seq<LockWaker>, key: LockKey) -> bool {
    exists|i: int|
        0 <= i < grants.len() && (#[trigger] grants[i]).key == key && grants[i].target_state
            != LockState::ReadLock
}

/// The holder of the lock waits for its upgrade.
pub open spec fn upgrade_waits(entry: EntryView) -> bool {
    entry.waiters.len() > 0 && entry.waiters[0].is_upgrade
}

/// The lock is as what was granted says: there are as many readers as were granted, the state is what was
/// granted, and what was granted waits no more.  Only a transaction lock that was taken up is upgraded.
pub open spec fn entry_settled(entry: EntryView, key: LockKey, grants: Seq<LockWaker>) -> bool {
    &&& reader_grants(grants, key) <= entry.read_count
    &&& forall|i: int|
        #![trigger grants[i]]
        0 <= i < grants.len() && grants[i].key == key ==> {
            &&& grants[i].target_state != LockState::ReadLock ==> entry.state
                == grants[i].target_state
            &&& !entry.waiters.contains(grants[i])
        }
    &&& upgrade_waits(entry) ==> entry.state == LockState::Locked && !writer_granted(grants, key)
    &&& forall|i: int| 0 < i < entry.waiters.len() ==> !(#[trigger] entry.waiters[i]).is_upgrade
}

/// What was granted is different requests, of which at most one has a lock for itself.
pub open spec fn grants_apart(grants: Seq<LockWaker>) -> bool {
    forall|i: int, j: int|
        #![trigger grants[i], grants[j]]
        0 <= i < j < grants.len() ==> {
            &&& grants[i] != grants[j]
            &&& grants[i].key == grants[j].key ==> grants[i].target_state == LockState::ReadLock
                || grants[j].target_state == LockState::ReadLock
        }
}

/// All locks are as what was granted says.
pub open spec fn settled(locks: LockMap, grants: Seq<LockWaker>, requests: nat) -> bool {
    &&& grants_apart(grants)
    &&& forall|i: int|
        #![trigger grants[i]]
        0 <= i < grants.len() ==> grants[i].id < requests && locks.contains_key(grants[i].key)
    &&& forall|key: LockKey|
        #![trigger locks.contains_key(key)]
        locks.contains_key(key) ==> entry_settled(locks[key], key, grants)
}

/// A request has the lock `key` for itself, has taken it up, and waits for no upgrade.
pub open spec fn taken_up(locks: LockMap, grants: Seq<LockWaker>, key: LockKey) -> bool {
    &&& locks.contains_key(key)
    &&& locks[key].state != LockState::ReadLock
    &&& !writer_granted(grants, key)
    &&& !upgrade_waits(locks[key])
}

/// How many requests hold the lock `key` for reading and have taken it up.
pub open spec fn reads_taken_up(locks: LockMap, grants: Seq<LockWaker>, key: LockKey) -> int {
    if locks.contains_key(key) {
        locks[key].read_count - reader_grants(grants, key)
    } else {
        0
    }
}

/// A request holds the lock `key` in `state` and has taken it up.
pub open spec fn holds_lock(
    locks: LockMap,
    grants: Seq<LockWaker>,
    key: LockKey,
    state: LockState,
) -> bool {
    if state == LockState::ReadLock {
        reads_taken_up(locks, grants, key) > 0
    } else {
        taken_up(locks, grants, key) && locks[key].state == state
    }
}

/// A hold on `key` that `state` describes can be given up: somebody has taken it up.
pub open spec fn can_release(
    locks: LockMap,
    grants: Seq<LockWaker>,
    key: LockKey,
    state: LockState,
) -> bool {
    if state == LockState::ReadLock {
        reads_taken_up(locks, grants, key) > 0
    } else {
        taken_up(locks, grants, key)
    }
}

/// What was granted and not taken up once the request of `waker` has taken up its lock.
pub open spec fn without_grant(grants: Seq<LockWaker>, waker: LockWaker) -> Seq<LockWaker> {
    grants.remove(grants.index_of(waker))
}

pub(crate) proof fn lemma_reader_grants_add(a: Seq<LockWaker>, b: Seq<LockWaker>, key: LockKey)
    ensures
        reader_grants(a + b, key) == reader_grants(a, key) + reader_grants(b, key),
    decreases b.len(),
{
    if b.len() == 0 {
        assert(a + b =~= a);
    } else {
        assert((a + b).drop_last() =~= a + b.drop_last());
        lemma_reader_grants_add(a, b.drop_last(), key);
    }
}

pub(crate) proof fn lemma_writer_granted_add(a: Seq<LockWaker>, b: Seq<LockWaker>, key: LockKey)
    ensures
        writer_granted(a + b, key) == (writer_granted(a, key) || writer_granted(b, key)),
{
    let c = a + b;
    if writer_granted(a, key) {
        let i = choose|i: int|
            0 <= i < a.len() && (#[trigger] a[i]).key == key && a[i].target_state
                != LockState::ReadLock;
        assert(c[i] == a[i]);
    }
    if writer_granted(b, key) {
        let i = choose|i: int|
            0 <= i < b.len() && (#[trigger] b[i]).key == key && b[i].target_state
                != LockState::ReadLock;
        assert(c[a.len() + i] == b[i]);
    }
    if writer_granted(c, key) {
        let i = choose|i: int|
            0 <= i < c.len() && (#[trigger] c[i]).key == key && c[i].target_state
                != LockState::ReadLock;
        if i < a.len() {
            assert(c[i] == a[i]);
        } else {
            assert(c[i] == b[i - a.len()]);
        }
    }
}

/// Grants of other locks make no difference to `key`.
proof fn lemma_no_reader_grants(grants: Seq<LockWaker>, key: LockKey)
    requires
        forall|i: int| 0 <= i < grants.len() ==> (#[trigger] grants[i]).key != key,
    ensures
        reader_grants(grants, key) == 0,
        !writer_granted(grants, key),
    decreases grants.len(),
{
    if grants.len() > 0 {
        assert(grants.drop_last().len() < grants.len());
        assert forall|i: int| 0 <= i < grants.drop_last().len() implies (
        #[trigger] grants.drop_last()[i]).key != key by {
            assert(grants.drop_last()[i] == grants[i]);
        }
        lemma_no_reader_grants(grants.drop_last(), key);
    }
}

proof fn lemma_all_reader_grants(grants: Seq<LockWaker>, key: LockKey)
    requires
        forall|i: int|
            0 <= i < grants.len() ==> (#[trigger] grants[i]).key == key && grants[i].target_state
                == LockState::ReadLock,
    ensures
        reader_grants(grants, key) == grants.len(),
    decreases grants.len(),
{
    if grants.len() > 0 {
        assert forall|i: int| 0 <= i < grants.drop_last().len() implies (
        #[trigger] grants.drop_last()[i]).key == key && grants.drop_last()[i].target_state
            == LockState::ReadLock by {
            assert(grants.drop_last()[i] == grants[i]);
        }
        lemma_all_reader_grants(grants.drop_last(), key);
    }
}

pub(crate) proof fn lemma_reader_granted(grants: Seq<LockWaker>, index: int)
    requires
        0 <= index < grants.len(),
        grants[index].target_state == LockState::ReadLock,
    ensures
        reader_grants(grants, grants[index].key) > 0,
    decreases grants.len(),
{
    if index < grants.len() - 1 {
        assert(grants.drop_last()[index] == grants[index]);
        lemma_reader_granted(grants.drop_last(), index);
    }
}

/// Taking up a grant takes it away, and nothing else.
pub(crate) proof fn lemma_without_grant(grants: Seq<LockWaker>, waker: LockWaker)
    requires
        grants.contains(waker),
        grants_apart(grants),
    ensures
        grants_apart(without_grant(grants, waker)),
        forall|key: LockKey| #[trigger]
            reader_grants(without_grant(grants, waker), key) == reader_grants(grants, key) - (if key
                == waker.key && waker.target_state == LockState::ReadLock {
                1int
            } else {
                0int
            }),
        forall|key: LockKey| #[trigger]
            writer_granted(without_grant(grants, waker), key) == (writer_granted(grants, key) && !(key
                == waker.key && waker.target_state != LockState::ReadLock)),
        forall|i: int|
            #![trigger without_grant(grants, waker)[i]]
            0 <= i < without_grant(grants, waker).len() ==> grants.contains(
                without_grant(grants, waker)[i],
            ) && without_grant(grants, waker)[i] != waker,
{
    let at = grants.index_of(waker);
    let after = without_grant(grants, waker);
    assert(0 <= at < grants.len() && grants[at] == waker);
    let (head, tail) = (grants.take(at), grants.skip(at + 1));
    assert(after =~= head + tail);
    assert(grants =~= head + seq![waker] + tail);
    assert forall|i: int| #![trigger after[i]] 0 <= i < after.len() implies grants.contains(after[i])
        && after[i] != waker by {
        let k = if i < at {
            i
        } else {
            i + 1
        };
        assert(after[i] == grants[k]);
    }
    assert forall|i: int, j: int|
        #![trigger after[i], after[j]]
        0 <= i < j < after.len() implies after[i] != after[j] && (after[i].key == after[j].key
        ==> after[i].target_state == LockState::ReadLock || after[j].target_state
        == LockState::ReadLock) by {
        let a = if i < at {
            i
        } else {
            i + 1
        };
        let b = if j < at {
            j
        } else {
            j + 1
        };
        assert(after[i] == grants[a] && after[j] == grants[b]);
    }
    assert forall|key: LockKey| #[trigger] reader_grants(after, key) == reader_grants(grants, key) - (
    if key == waker.key && waker.target_state == LockState::ReadLock {
        1int
    } else {
        0int
    }) by {
        lemma_reader_grants_add(head, tail, key);
        lemma_reader_grants_add(head + seq![waker], tail, key);
        lemma_reader_grants_add(head, seq![waker], key);
        assert(seq![waker].drop_last() =~= Seq::<LockWaker>::empty());
        reveal_with_fuel(reader_grants, 2);
    }
    assert forall|key: LockKey| #[trigger] writer_granted(after, key) == (writer_granted(grants, key)
        && !(key == waker.key && waker.target_state != LockState::ReadLock)) by {
        if writer_granted(after, key) {
            let i = choose|i: int|
                0 <= i < after.len() && (#[trigger] after[i]).key == key && after[i].target_state
                    != LockState::ReadLock;
            let k = if i < at {
                i
            } else {
                i + 1
            };
            assert(after[i] == grants[k]);
            assert(grants[k] != grants[at]);
        }
        if writer_granted(grants, key) {
            let k = choose|i: int|
                0 <= i < grants.len() && (#[trigger] grants[i]).key == key && grants[i].target_state
                    != LockState::ReadLock;
            if k != at {
                let i = if k < at {
                    k
                } else {
                    k - 1
                };
                assert(after[i] == grants[k]);
                if key == waker.key && waker.target_state != LockState::ReadLock {
                    if k < at {
                        assert(grants[k].target_state == LockState::ReadLock);
                    } else {
                        assert(grants[at].target_state == LockState::ReadLock);
                    }
                }
            }
        }
    }
}

/// What waking the requests that wait for a lock grants fits what was granted before.
pub(crate) proof fn lemma_wake_settles(
    entry: EntryView,
    key: LockKey,
    grants: Seq<LockWaker>,
    requests: nat,
)
    requires
        grants_apart(grants),
        entry_settled(entry, key, grants),
        entry.wake_count() <= entry.waiters.len(),
        forall|i: int|
            0 < i < entry.wake_count() ==> (#[trigger] entry.waiters[i]).target_state
                == LockState::ReadLock,
        forall|i: int|
            #![trigger entry.waiters[i]]
            0 <= i < entry.waiters.len() ==> {
                &&& entry.waiters[i].id < requests
                &&& entry.waiters[i].key == key
                &&& entry.waiters[i].is_upgrade ==> entry.waiters[i].target_state
                    == LockState::WriteLock
            },
        forall|i: int, j: int|
            #![trigger entry.waiters[i], entry.waiters[j]]
            0 <= i < j < entry.waiters.len() ==> entry.waiters[i].id != entry.waiters[j].id,
    ensures
        grants_apart(grants + entry.wakers()),
        entry_settled(entry.woken(), key, grants + entry.wakers()),
        forall|i: int|
            #![trigger entry.wakers()[i]]
            0 <= i < entry.wakers().len() ==> entry.wakers()[i].key == key && entry.wakers()[i].id
                < requests,
{
    let count = entry.wake_count() as int;
    let wakers = entry.wakers();
    let woken = entry.woken();
    let all = grants + wakers;
    assert(wakers =~= entry.waiters.take(count));
    assert forall|i: int| #![trigger wakers[i]] 0 <= i < wakers.len() implies wakers[i]
        == entry.waiters[i] by {}
    if count == 0 {
        assert(all =~= grants);
        assert(woken == entry);
    } else {
        let first = entry.waiters[0];
        assert(wakers[0] == first);
        // Only the first request can have the lock for itself, and only if nobody else was granted it.
        assert(first.target_state != LockState::ReadLock ==> !writer_granted(grants, key)) by {
            if first.target_state != LockState::ReadLock && writer_granted(grants, key) {
                let i = choose|i: int|
                    0 <= i < grants.len() && (#[trigger] grants[i]).key == key
                        && grants[i].target_state != LockState::ReadLock;
                assert(entry.state == grants[i].target_state);
                assert(entry.can_wake());
            }
        }
        assert forall|i: int, j: int|
            #![trigger all[i], all[j]]
            0 <= i < j < all.len() implies all[i] != all[j] && (all[i].key == all[j].key
            ==> all[i].target_state == LockState::ReadLock || all[j].target_state
            == LockState::ReadLock) by {
            if j >= grants.len() {
                let b = j - grants.len();
                assert(all[j] == wakers[b] && wakers[b] == entry.waiters[b]);
                if i < grants.len() {
                    assert(all[i] == grants[i]);
                    assert(entry.waiters.contains(entry.waiters[b]));
                    if b == 0 && grants[i].key == key && grants[i].target_state
                        != LockState::ReadLock {
                        assert(writer_granted(grants, key));
                    }
                } else {
                    let a = i - grants.len();
                    assert(all[i] == wakers[a] && wakers[a] == entry.waiters[a]);
                }
            } else {
                assert(all[i] == grants[i] && all[j] == grants[j]);
            }
        }
        // As many readers more as are granted.
        lemma_reader_grants_add(grants, wakers, key);
        let rest = wakers.skip(1);
        assert forall|i: int| 0 <= i < rest.len() implies (#[trigger] rest[i]).key == key
            && rest[i].target_state == LockState::ReadLock by {
            assert(rest[i] == entry.waiters[i + 1]);
        }
        lemma_all_reader_grants(rest, key);
        assert(wakers =~= seq![first] + rest);
        lemma_reader_grants_add(seq![first], rest, key);
        assert(seq![first].drop_last() =~= Seq::<LockWaker>::empty());
        reveal_with_fuel(reader_grants, 2);
        assert(reader_grants(all, key) <= woken.read_count);
        assert(woken.waiters =~= entry.waiters.skip(count));
        assert forall|i: int| #![trigger all[i]] 0 <= i < all.len() && all[i].key == key implies (
        all[i].target_state != LockState::ReadLock ==> woken.state == all[i].target_state)
            && !woken.waiters.contains(all[i]) by {
            if i < grants.len() {
                assert(all[i] == grants[i]);
                if grants[i].target_state != LockState::ReadLock {
                    assert(writer_granted(grants, key));
                }
                if woken.waiters.contains(all[i]) {
                    let w = choose|w: int| 0 <= w < woken.waiters.len() && woken.waiters[w] == all[i];
                    assert(entry.waiters[w + count] == grants[i]);
                    assert(entry.waiters.contains(grants[i]));
                }
            } else {
                let b = i - grants.len();
                assert(all[i] == wakers[b] && wakers[b] == entry.waiters[b]);
                if woken.waiters.contains(all[i]) {
                    let w = choose|w: int| 0 <= w < woken.waiters.len() && woken.waiters[w] == all[i];
                    assert(entry.waiters[w + count] == entry.waiters[b]);
                }
            }
        }
        assert(!upgrade_waits(woken)) by {
            if woken.waiters.len() > 0 {
                assert(woken.waiters[0] == entry.waiters[count]);
            }
        }
        assert forall|i: int| 0 < i < woken.waiters.len() implies !(
        #[trigger] woken.waiters[i]).is_upgrade by {
            assert(woken.waiters[i] == entry.waiters[i + count]);
        }
    }
}

/// Changing one lock, and granting requests for it, leaves the other locks settled.
pub(crate) proof fn lemma_settled_at(
    locks: LockMap,
    after: LockMap,
    grants: Seq<LockWaker>,
    more: Seq<LockWaker>,
    key: LockKey,
    requests: nat,
    requests_after: nat,
)
    requires
        grants_apart(grants + more),
        requests <= requests_after,
        forall|i: int|
            #![trigger grants[i]]
            0 <= i < grants.len() ==> grants[i].id < requests && locks.contains_key(grants[i].key),
        forall|other: LockKey|
            #![trigger locks.contains_key(other)]
            other != key && locks.contains_key(other) ==> entry_settled(locks[other], other, grants),
        forall|other: LockKey|
            #![trigger after.contains_key(other)]
            other != key ==> (after.contains_key(other) == locks.contains_key(other)) && (
            locks.contains_key(other) ==> after[other] == locks[other]),
        forall|i: int|
            #![trigger more[i]]
            0 <= i < more.len() ==> more[i].key == key && more[i].id < requests_after,
        after.contains_key(key) ==> entry_settled(after[key], key, grants + more),
        !after.contains_key(key) ==> more.len() == 0 && (forall|i: int|
            0 <= i < grants.len() ==> (#[trigger] grants[i]).key != key),
    ensures
        settled(after, grants + more, requests_after),
        forall|other: LockKey|
            #![trigger reader_grants(grants + more, other)]
            other != key ==> reader_grants(grants + more, other) == reader_grants(grants, other),
        forall|other: LockKey|
            #![trigger writer_granted(grants + more, other)]
            other != key ==> writer_granted(grants + more, other) == writer_granted(grants, other),
{
    let all = grants + more;
    assert forall|other: LockKey| other != key implies #[trigger] reader_grants(all, other)
        == reader_grants(grants, other) by {
        lemma_reader_grants_add(grants, more, other);
        lemma_no_reader_grants(more, other);
    }
    assert forall|other: LockKey| other != key implies #[trigger] writer_granted(all, other)
        == writer_granted(grants, other) by {
        lemma_writer_granted_add(grants, more, other);
        lemma_no_reader_grants(more, other);
    }
    assert forall|i: int| #![trigger all[i]] 0 <= i < all.len() implies all[i].id < requests_after
        && after.contains_key(all[i].key) by {
        if i < grants.len() {
            assert(all[i] == grants[i]);
            if grants[i].key != key {
                assert(after.contains_key(grants[i].key) == locks.contains_key(grants[i].key));
            }
        } else {
            assert(all[i] == more[i - grants.len()]);
        }
    }
    assert forall|other: LockKey| #![trigger after.contains_key(other)] after.contains_key(
        other,
    ) implies entry_settled(after[other], other, all) by {
        if other != key {
            assert(locks.contains_key(other));
            assert(entry_settled(locks[other], other, grants));
            assert(reader_grants(all, other) == reader_grants(grants, other));
            assert(writer_granted(all, other) == writer_granted(grants, other));
            let entry = after[other];
            assert forall|i: int| #![trigger all[i]] 0 <= i < all.len() && all[i].key == other implies (
            all[i].target_state != LockState::ReadLock ==> entry.state == all[i].target_state)
                && !entry.waiters.contains(all[i]) by {
                if i < grants.len() {
                    assert(all[i] == grants[i]);
                } else {
                    assert(all[i] == more[i - grants.len()]);
                }
            }
        }
    }
}

/// Storing a lock that fits what was granted leaves everything settled.
proof fn lemma_store_settles(
    locks: LockMap,
    grants: Seq<LockWaker>,
    more: Seq<LockWaker>,
    key: LockKey,
    requests: nat,
    requests_after: nat,
    entry: EntryView,
)
    requires
        settled(locks, grants, requests),
        requests <= requests_after,
        grants_apart(grants + more),
        entry_settled(entry, key, grants + more),
        forall|i: int|
            #![trigger more[i]]
            0 <= i < more.len() ==> more[i].key == key && more[i].id < requests_after,
    ensures
        settled(store(locks, key, entry), grants + more, requests_after),
        forall|other: LockKey|
            #![trigger reader_grants(grants + more, other)]
            other != key ==> reader_grants(grants + more, other) == reader_grants(grants, other),
        forall|other: LockKey|
            #![trigger writer_granted(grants + more, other)]
            other != key ==> writer_granted(grants + more, other) == writer_granted(grants, other),
{
    let all = grants + more;
    let after = store(locks, key, entry);
    if !entry.held() {
        // Nobody was granted a lock that nobody holds.
        assert forall|i: int| 0 <= i < all.len() implies (#[trigger] all[i]).key != key by {
            if all[i].key == key {
                if all[i].target_state == LockState::ReadLock {
                    lemma_reader_granted(all, i);
                }
            }
        }
        assert forall|i: int| 0 <= i < grants.len() implies (#[trigger] grants[i]).key != key by {
            assert(all[i] == grants[i]);
        }
        if more.len() > 0 {
            assert(all[grants.len() as int] == more[0]);
        }
    }
    lemma_settled_at(locks, after, grants, more, key, requests, requests_after);
}

/// Waking those that wait for a lock, after it was changed, leaves everything settled.
pub(crate) proof fn lemma_change_settles(
    locks: LockMap,
    grants: Seq<LockWaker>,
    key: LockKey,
    requests: nat,
    entry: EntryView,
)
    requires
        settled(locks, grants, requests),
        entry_settled(entry, key, grants),
        forall|i: int|
            #![trigger entry.waiters[i]]
            0 <= i < entry.waiters.len() ==> {
                &&& entry.waiters[i].id < requests
                &&& entry.waiters[i].key == key
                &&& entry.waiters[i].is_upgrade ==> entry.waiters[i].target_state
                    == LockState::WriteLock
            },
        forall|i: int, j: int|
            #![trigger entry.waiters[i], entry.waiters[j]]
            0 <= i < j < entry.waiters.len() ==> entry.waiters[i].id != entry.waiters[j].id,
    ensures
        settled(store(locks, key, entry.woken()), grants + entry.wakers(), requests),
        forall|other: LockKey|
            #![trigger reader_grants(grants + entry.wakers(), other)]
            other != key ==> reader_grants(grants + entry.wakers(), other) == reader_grants(
                grants,
                other,
            ),
        forall|other: LockKey|
            #![trigger writer_granted(grants + entry.wakers(), other)]
            other != key ==> writer_granted(grants + entry.wakers(), other) == writer_granted(
                grants,
                other,
            ),
{
    lemma_wake_takes_prefix(entry);
    assert forall|i: int| 0 < i < entry.wake_count() implies (
    #[trigger] entry.waiters[i]).target_state == LockState::ReadLock by {
        lemma_readers_are_woken_together(entry, i);
    }
    lemma_wake_settles(entry, key, grants, requests);
    lemma_store_settles(locks, grants, entry.wakers(), key, requests, requests, entry.woken());
}

/// Releasing a lock leaves everything settled, and the holds on other locks as they were.
pub(crate) proof fn lemma_release_settles(
    locks: LockMap,
    grants: Seq<LockWaker>,
    key: LockKey,
    requests: nat,
    state: LockState,
)
    requires
        settled(locks, grants, requests),
        can_release(locks, grants, key, state),
        locks[key].wf(key, requests),
    ensures
        settled(
            store(locks, key, locks[key].released(state)),
            grants + locks[key].release_wakers(state),
            requests,
        ),
        forall|other: LockKey|
            #![trigger reader_grants(grants + locks[key].release_wakers(state), other)]
            other != key ==> reader_grants(grants + locks[key].release_wakers(state), other)
                == reader_grants(grants, other),
        forall|other: LockKey|
            #![trigger writer_granted(grants + locks[key].release_wakers(state), other)]
            other != key ==> writer_granted(grants + locks[key].release_wakers(state), other)
                == writer_granted(grants, other),
{
    let before = locks[key];
    let entry = before.given_up(state);
    assert(locks.contains_key(key));
    assert(entry_settled(before, key, grants));
    assert(entry.waiters == before.waiters);
    assert forall|i: int| #![trigger grants[i]] 0 <= i < grants.len() && grants[i].key == key implies (
    grants[i].target_state != LockState::ReadLock ==> entry.state == grants[i].target_state)
        && !entry.waiters.contains(grants[i]) by {
        if state != LockState::ReadLock && grants[i].target_state != LockState::ReadLock {
            assert(writer_granted(grants, key));
        }
    }
    assert(entry_settled(entry, key, grants));
    if before.release_wakes(state) {
        lemma_change_settles(locks, grants, key, requests, entry);
    } else {
        assert(grants + Seq::<LockWaker>::empty() =~= grants);
        lemma_store_settles(locks, grants, Seq::empty(), key, requests, requests, entry);
    }
}

/// Asking for a lock leaves everything settled, whether or not it is granted.
pub(crate) proof fn lemma_lock_settles(
    locks: LockMap,
    grants: Seq<LockWaker>,
    key: LockKey,
    requests: nat,
    target: LockState,
    waker: Option<LockWaker>,
)
    requires
        settled(locks, grants, requests),
        waker is None <==> lookup(locks, key).grants(target),
        waker is None ==> lookup(locks, key).granted(target).held(),
        waker matches Some(waker) ==> waker.id == requests && !waker.is_upgrade && lookup(
            locks,
            key,
        ).held(),
    ensures
        waker matches Some(waker) ==> settled(
            locks.insert(key, lookup(locks, key).queued(waker)),
            grants,
            requests + 1,
        ),
        waker is None ==> settled(
            locks.insert(key, lookup(locks, key).granted(target)),
            grants,
            requests + 1,
        ),
        waker is None ==> holds_lock(
            locks.insert(key, lookup(locks, key).granted(target)),
            grants,
            key,
            target,
        ),
{
    let before = lookup(locks, key);
    let entry = match waker {
        Some(waker) => before.queued(waker),
        None => before.granted(target),
    };
    if !locks.contains_key(key) {
        assert forall|i: int| 0 <= i < grants.len() implies (#[trigger] grants[i]).key != key by {
            assert(locks.contains_key(grants[i].key));
        }
        lemma_no_reader_grants(grants, key);
    } else {
        assert(entry_settled(before, key, grants));
    }
    if waker is None && target != LockState::ReadLock && writer_granted(grants, key) {
        let i = choose|i: int|
            0 <= i < grants.len() && (#[trigger] grants[i]).key == key && grants[i].target_state
                != LockState::ReadLock;
        assert(before.state == grants[i].target_state);
    }
    assert forall|i: int| #![trigger grants[i]] 0 <= i < grants.len() && grants[i].key == key implies (
    grants[i].target_state != LockState::ReadLock ==> entry.state == grants[i].target_state)
        && !entry.waiters.contains(grants[i]) by {
        if grants[i].target_state != LockState::ReadLock {
            assert(writer_granted(grants, key));
        }
        if entry.waiters.contains(grants[i]) {
            let w = choose|w: int| 0 <= w < entry.waiters.len() && entry.waiters[w] == grants[i];
            if w < before.waiters.len() {
                assert(before.waiters[w] == grants[i]);
                assert(before.waiters.contains(grants[i]));
            }
        }
    }
    assert forall|i: int| 0 < i < entry.waiters.len() implies !(
    #[trigger] entry.waiters[i]).is_upgrade by {
        if i < before.waiters.len() {
            assert(entry.waiters[i] == before.waiters[i]);
        }
    }
    assert(entry_settled(entry, key, grants));
    assert(grants + Seq::<LockWaker>::empty() =~= grants);
    lemma_store_settles(locks, grants, Seq::empty(), key, requests, requests + 1, entry);
}

/// Asking for the upgrade of a lock leaves everything settled, whether or not it is granted.
pub(crate) proof fn lemma_upgrade_settles(
    locks: LockMap,
    grants: Seq<LockWaker>,
    key: LockKey,
    requests: nat,
    waker: Option<LockWaker>,
)
    requires
        settled(locks, grants, requests),
        holds_lock(locks, grants, key, LockState::Locked),
        waker matches Some(waker) ==> waker.id == requests && waker.is_upgrade,
    ensures
        waker matches Some(waker) ==> settled(
            locks.insert(key, locks[key].queued_first(waker)),
            grants,
            requests + 1,
        ),
        waker is None ==> settled(
            locks.insert(key, locks[key].granted(LockState::WriteLock)),
            grants,
            requests + 1,
        ),
        waker is None ==> holds_lock(
            locks.insert(key, locks[key].granted(LockState::WriteLock)),
            grants,
            key,
            LockState::WriteLock,
        ),
{
    let before = locks[key];
    let entry = match waker {
        Some(waker) => before.queued_first(waker),
        None => before.granted(LockState::WriteLock),
    };
    assert(entry_settled(before, key, grants));
    assert forall|i: int| #![trigger grants[i]] 0 <= i < grants.len() && grants[i].key == key implies (
    grants[i].target_state != LockState::ReadLock ==> entry.state == grants[i].target_state)
        && !entry.waiters.contains(grants[i]) by {
        if grants[i].target_state != LockState::ReadLock {
            assert(writer_granted(grants, key));
        }
        if entry.waiters.contains(grants[i]) {
            let w = choose|w: int| 0 <= w < entry.waiters.len() && entry.waiters[w] == grants[i];
            if waker is None {
                assert(before.waiters.contains(grants[i]));
            } else if w > 0 {
                assert(before.waiters[w - 1] == grants[i]);
                assert(before.waiters.contains(grants[i]));
            }
        }
    }
    assert forall|i: int| 0 < i < entry.waiters.len() implies !(
    #[trigger] entry.waiters[i]).is_upgrade by {
        if waker is Some {
            assert(entry.waiters[i] == before.waiters[i - 1]);
        }
    }
    assert(entry_settled(entry, key, grants));
    assert(grants + Seq::<LockWaker>::empty() =~= grants);
    lemma_store_settles(locks, grants, Seq::empty(), key, requests, requests + 1, entry);
}

/// Taking back a request that waits leaves everything settled.
pub(crate) proof fn lemma_without_waiter_settles(
    locks: LockMap,
    grants: Seq<LockWaker>,
    key: LockKey,
    requests: nat,
    index: int,
)
    requires
        settled(locks, grants, requests),
        locks.contains_key(key),
        locks[key].wf(key, requests),
        0 <= index < locks[key].waiters.len(),
    ensures
        ({
            let entry = locks[key].without_waiter(index);
            &&& index == 0 ==> settled(
                store(locks, key, entry.woken()),
                grants + entry.wakers(),
                requests,
            )
            &&& settled(
                store(locks, key, entry),
                grants + Seq::<LockWaker>::empty(),
                requests,
            )
        }),
{
    let before = locks[key];
    let entry = before.without_waiter(index);
    assert(entry_settled(before, key, grants));
    assert forall|i: int| #![trigger entry.waiters[i]] 0 <= i < entry.waiters.len() implies
        entry.waiters[i] == before.waiters[if i < index {
        i
    } else {
        i + 1
    }] by {}
    assert forall|i: int| #![trigger grants[i]] 0 <= i < grants.len() && grants[i].key == key implies (
    grants[i].target_state != LockState::ReadLock ==> entry.state == grants[i].target_state)
        && !entry.waiters.contains(grants[i]) by {
        if entry.waiters.contains(grants[i]) {
            let w = choose|w: int| 0 <= w < entry.waiters.len() && entry.waiters[w] == grants[i];
            let b = if w < index {
                w
            } else {
                w + 1
            };
            assert(before.waiters[b] == grants[i]);
            assert(before.waiters.contains(grants[i]));
        }
    }
    assert(entry_settled(entry, key, grants));
    assert(grants + Seq::<LockWaker>::empty() =~= grants);
    lemma_store_settles(locks, grants, Seq::empty(), key, requests, requests, entry);
    if index == 0 {
        lemma_change_settles(locks, grants, key, requests, entry);
    }
}

/// Taking up what was granted leaves everything settled; the request then holds its lock, and whoever held
/// a lock before still does.
pub(crate) proof fn lemma_take_up_settles(
    locks: LockMap,
    grants: Seq<LockWaker>,
    waker: LockWaker,
    requests: nat,
)
    requires
        settled(locks, grants, requests),
        grants.contains(waker),
    ensures
        settled(locks, without_grant(grants, waker), requests),
        holds_lock(locks, without_grant(grants, waker), waker.key, waker.target_state),
        !can_release(locks, grants, waker.key, waker.target_state) || waker.target_state
            == LockState::ReadLock,
        forall|key: LockKey, state: LockState|
            #![trigger holds_lock(locks, without_grant(grants, waker), key, state)]
            holds_lock(locks, grants, key, state) ==> holds_lock(
                locks,
                without_grant(grants, waker),
                key,
                state,
            ),
{
    let after = without_grant(grants, waker);
    let at = grants.index_of(waker);
    assert(grants[at] == waker);
    lemma_without_grant(grants, waker);
    assert(locks.contains_key(waker.key));
    assert(entry_settled(locks[waker.key], waker.key, grants));
    if waker.target_state != LockState::ReadLock {
        assert(writer_granted(grants, waker.key));
    } else {
        lemma_reader_granted(grants, at);
    }
    assert forall|i: int| #![trigger after[i]] 0 <= i < after.len() implies after[i].id < requests
        && locks.contains_key(after[i].key) by {
        let k = grants.index_of(after[i]);
        assert(grants[k] == after[i]);
    }
    assert forall|key: LockKey| #![trigger locks.contains_key(key)] locks.contains_key(key) implies
        entry_settled(locks[key], key, after) by {
        assert(entry_settled(locks[key], key, grants));
        let entry = locks[key];
        assert(reader_grants(after, key) <= reader_grants(grants, key));
        assert(writer_granted(after, key) ==> writer_granted(grants, key));
        assert forall|i: int| #![trigger after[i]] 0 <= i < after.len() && after[i].key == key implies (
        after[i].target_state != LockState::ReadLock ==> entry.state == after[i].target_state)
            && !entry.waiters.contains(after[i]) by {
            let k = grants.index_of(after[i]);
            assert(grants[k] == after[i]);
        }
    }
    assert(reader_grants(after, waker.key) <= reader_grants(grants, waker.key));
    assert(!(writer_granted(after, waker.key) && waker.target_state != LockState::ReadLock));
    assert forall|key: LockKey, state: LockState|
        #![trigger holds_lock(locks, after, key, state)]
        holds_lock(locks, grants, key, state) implies holds_lock(locks, after, key, state) by {
        assert(reader_grants(after, key) <= reader_grants(grants, key));
        assert(writer_granted(after, key) ==> writer_granted(grants, key));
    }
}

} // verus!
