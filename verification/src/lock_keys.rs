//! The keys by which transactions lock what they change, and the container that holds them.
use vstd::prelude::*;
use vstd::std_specs::iter::IteratorSpec;

verus! {

/// `core::slice::from_ref` converts a reference to a value into a slice that holds that value
/// alone.
pub assume_specification<T>[ core::slice::from_ref::<T> ](s: &T) -> (slice: &[T])
    ensures
        slice@ == seq![*s],
;

/// When creating a transaction, locks typically need to be held to prevent two or more writers
/// trying to make conflicting mutations at the same time.  LockKeys are used for this.
/// NOTE: Ordering is important here!  The lock manager sorts the list of locks in a transaction
/// to acquire them in a consistent order, but there are special cases for the Filesystem lock and
/// the Flush lock.
/// The Filesystem lock is taken by every transaction and is done so first.
/// The Flush lock is taken when an LSM tree (e.g. an object store) is flushed, and is held for
/// several transactions.  As such, it must come first in the lock acquisition ordering, so that
/// other transactions using the Flush lock have the same ordering as in flushing.
#[derive(Clone, Copy, Debug, PartialEq, Eq, Hash, PartialOrd, Ord, Structural)]
pub enum LockKey {
    /// Locks the entire filesystem.
    Filesystem,
    /// Used to lock flushing an object.
    Flush { object_id: u64 },
    /// Used to lock changes to a particular object attribute (e.g. writes).
    ObjectAttribute { store_object_id: u64, object_id: u64, attribute_id: u64 },
    /// Used to lock changes to a particular object (e.g. adding a child to a directory).
    Object { store_object_id: u64, object_id: u64 },
    /// Used to lock the limit of a project.
    ProjectId { store_object_id: u64, project_id: u64 },
    /// Used to lock any truncate operations for a file.
    Truncate { store_object_id: u64, object_id: u64 },
}

/// A key written as four integers: its kind, then its identifiers, most significant first.
pub type KeyOrdinal = (u64, u64, u64, u64);

/// The lexicographic order on four integers.
pub open spec fn ordinal_lt(a: KeyOrdinal, b: KeyOrdinal) -> bool {
    ||| a.0 < b.0
    ||| a.0 == b.0 && a.1 < b.1
    ||| a.0 == b.0 && a.1 == b.1 && a.2 < b.2
    ||| a.0 == b.0 && a.1 == b.1 && a.2 == b.2 && a.3 < b.3
}

impl LockKey {
    /// The four integers that stand for this key.
    pub open spec fn spec_ordinal(self) -> KeyOrdinal {
        match self {
            LockKey::Filesystem => (0, 0, 0, 0),
            LockKey::Flush { object_id } => (1, object_id, 0, 0),
            LockKey::ObjectAttribute { store_object_id, object_id, attribute_id } => (
                2,
                store_object_id,
                object_id,
                attribute_id,
            ),
            LockKey::Object { store_object_id, object_id } => (3, store_object_id, object_id, 0),
            LockKey::ProjectId { store_object_id, project_id } => (
                4,
                store_object_id,
                project_id,
                0,
            ),
            LockKey::Truncate { store_object_id, object_id } => (
                5,
                store_object_id,
                object_id,
                0,
            ),
        }
    }

    /// The order in which locks are acquired: by kind, then by identifiers.
    pub open spec fn precedes(self, other: LockKey) -> bool {
        ordinal_lt(self.spec_ordinal(), other.spec_ordinal())
    }

    pub fn object_attribute(store_object_id: u64, object_id: u64, attribute_id: u64) -> (key: Self)
        ensures
            key == (LockKey::ObjectAttribute { store_object_id, object_id, attribute_id }),
    {
        LockKey::ObjectAttribute { store_object_id, object_id, attribute_id }
    }

    pub fn object(store_object_id: u64, object_id: u64) -> (key: Self)
        ensures
            key == (LockKey::Object { store_object_id, object_id }),
    {
        LockKey::Object { store_object_id, object_id }
    }

    pub fn flush(object_id: u64) -> (key: Self)
        ensures
            key == (LockKey::Flush { object_id }),
    {
        LockKey::Flush { object_id }
    }

    pub fn truncate(store_object_id: u64, object_id: u64) -> (key: Self)
        ensures
            key == (LockKey::Truncate { store_object_id, object_id }),
    {
        LockKey::Truncate { store_object_id, object_id }
    }

    /// Returns the four integers that stand for this key.
    pub fn ordinal(&self) -> (ordinal: KeyOrdinal)
        ensures
            ordinal == self.spec_ordinal(),
    {
        match *self {
            LockKey::Filesystem => (0, 0, 0, 0),
            LockKey::Flush { object_id } => (1, object_id, 0, 0),
            LockKey::ObjectAttribute { store_object_id, object_id, attribute_id } => (
                2,
                store_object_id,
                object_id,
                attribute_id,
            ),
            LockKey::Object { store_object_id, object_id } => (3, store_object_id, object_id, 0),
            LockKey::ProjectId { store_object_id, project_id } => (
                4,
                store_object_id,
                project_id,
                0,
            ),
            LockKey::Truncate { store_object_id, object_id } => (
                5,
                store_object_id,
                object_id,
                0,
            ),
        }
    }

    /// Returns whether this key is acquired before `other`.
    pub fn is_before(&self, other: &LockKey) -> (before: bool)
        ensures
            before == self.precedes(*other),
    {
        let a: KeyOrdinal = self.ordinal();
        let b: KeyOrdinal = other.ordinal();
        if a.0 != b.0 {
            a.0 < b.0
        } else if a.1 != b.1 {
            a.1 < b.1
        } else if a.2 != b.2 {
            a.2 < b.2
        } else {
            a.3 < b.3
        }
    }
}

/// Different keys have different ordinals.
pub proof fn lemma_ordinal_injective(a: LockKey, b: LockKey)
    ensures
        a.spec_ordinal() == b.spec_ordinal() <==> a == b,
{
}

/// The acquisition order is a strict total order: of two different keys exactly one comes first,
/// no key comes before itself, and the order is transitive.
pub proof fn lemma_precedes_total_order(a: LockKey, b: LockKey, c: LockKey)
    ensures
        !a.precedes(a),
        a != b ==> (a.precedes(b) <==> !b.precedes(a)),
        a.precedes(b) && b.precedes(c) ==> a.precedes(c),
{
    lemma_ordinal_injective(a, b);
}

/// The filesystem lock comes before every other lock and a flush lock before every lock on an
/// object, its attributes, a project or a truncation.
pub proof fn lemma_filesystem_then_flush_first(key: LockKey, object_id: u64)
    ensures
        key != LockKey::Filesystem ==> LockKey::Filesystem.precedes(key),
        !(key is Filesystem) && !(key is Flush) ==> (LockKey::Flush { object_id }).precedes(key),
{
}

/// A container for holding `LockKey` objects. Can store a single `LockKey` inline.
#[derive(Clone, Debug)]
pub enum LockKeys {
    Empty,
    Inline(LockKey),
    Vec(Vec<LockKey>),
}

impl View for LockKeys {
    type V = Seq<LockKey>;

    open spec fn view(&self) -> Seq<LockKey> {
        match self {
            LockKeys::Empty => Seq::empty(),
            LockKeys::Inline(key) => seq![*key],
            LockKeys::Vec(vec) => vec@,
        }
    }
}

/// Nothing in `keys` stands after something that it precedes.
pub open spec fn is_sorted(keys: Seq<LockKey>) -> bool {
    forall|i: int, j: int|
        #![trigger keys[i], keys[j]]
        0 <= i < j < keys.len() ==> !keys[j].precedes(keys[i])
}

/// `keys` with all but the first of each run of equal keys removed.
pub open spec fn without_runs(keys: Seq<LockKey>) -> Seq<LockKey>
    decreases keys.len(),
{
    if keys.len() <= 1 {
        keys
    } else if keys.last() == keys[keys.len() - 2] {
        without_runs(keys.drop_last())
    } else {
        without_runs(keys.drop_last()).push(keys.last())
    }
}

/// Sorts `vec` by the acquisition order.
fn sort_keys(vec: &mut Vec<LockKey>)
    ensures
        is_sorted(final(vec)@),
        final(vec)@.to_multiset() == old(vec)@.to_multiset(),
        final(vec)@.len() == old(vec)@.len(),
{
    broadcast use vstd::seq_lib::group_to_multiset_ensures;

    let mut sorted: usize = 0;
    while sorted < vec.len()
        invariant
            sorted <= vec@.len() == old(vec)@.len(),
            is_sorted(vec@.take(sorted as int)),
            vec@.to_multiset() == old(vec)@.to_multiset(),
        decreases vec@.len() - sorted,
    {
        let ghost before = vec@;
        let key = vec[sorted];
        let mut at: usize = 0;
        while at < sorted && !key.is_before(&vec[at])
            invariant
                at <= sorted < vec@.len(),
                vec@ == before,
                key == before[sorted as int],
                forall|i: int| 0 <= i < at ==> !key.precedes(#[trigger] before[i]),
            decreases sorted - at,
        {
            at += 1;
        }
        let removed = vec.remove(sorted);
        vec.insert(at, removed);
        proof {
            lemma_insertion_keeps_sorted(before, sorted as int, at as int);
            assert(vec@ == before.remove(sorted as int).insert(at as int, key));
            lemma_remove_insert_multiset(before, sorted as int, at as int);
        }
        sorted += 1;
    }
    assert(vec@.take(vec@.len() as int) =~= vec@);
}

proof fn lemma_remove_insert_multiset(s: Seq<LockKey>, from: int, to: int)
    requires
        0 <= to <= from < s.len(),
    ensures
        s.remove(from).insert(to, s[from]).to_multiset() == s.to_multiset(),
{
    broadcast use vstd::seq_lib::group_to_multiset_ensures;

    let key = s[from];
    assert(s.to_multiset().count(key) > 0);
    assert(s.remove(from).to_multiset() =~= s.to_multiset().remove(key));
    assert(s.remove(from).insert(to, key).to_multiset() =~= s.to_multiset());
}

proof fn lemma_insertion_keeps_sorted(s: Seq<LockKey>, from: int, to: int)
    requires
        0 <= to <= from < s.len(),
        is_sorted(s.take(from)),
        forall|i: int| 0 <= i < to ==> !s[from].precedes(#[trigger] s[i]),
        to < from ==> s[from].precedes(s[to]),
    ensures
        is_sorted(s.remove(from).insert(to, s[from]).take(from + 1)),
{
    let prefix = s.take(from);
    let t = s.remove(from).insert(to, s[from]).take(from + 1);
    assert forall|i: int, j: int|
        #![trigger t[i], t[j]]
        0 <= i < j < t.len() implies !t[j].precedes(t[i]) by {
        let a = if i < to { i } else { i - 1 };
        let b = if j < to { j } else { j - 1 };
        if i == to {
            assert(t[j] == prefix[j - 1]);
            if to < j - 1 {
                assert(!prefix[j - 1].precedes(prefix[to]));
            }
            lemma_precedes_total_order(t[j], t[i], s[to]);
            lemma_precedes_total_order(t[i], s[to], t[j]);
            lemma_precedes_total_order(s[to], t[j], t[i]);
        } else if j == to {
            assert(t[i] == s[i]);
        } else {
            assert(t[i] == prefix[a] && t[j] == prefix[b]);
        }
    }
}

impl LockKeys {
    pub fn with_capacity(capacity: usize) -> (keys: Self)
        ensures
            keys@ == Seq::<LockKey>::empty(),
            keys is Vec <==> capacity > 1,
            keys is Empty <==> capacity <= 1,
    {
        if capacity > 1 {
            LockKeys::Vec(Vec::with_capacity(capacity))
        } else {
            LockKeys::Empty
        }
    }

    pub fn push(&mut self, key: LockKey)
        ensures
            final(self)@ == old(self)@.push(key),
            *old(self) is Empty ==> *final(self) == LockKeys::Inline(key),
            !(*old(self) is Empty) ==> *final(self) is Vec,
    {
        match self {
            LockKeys::Empty => {
                *self = LockKeys::Inline(key);
            },
            LockKeys::Inline(inline) => {
                let first: LockKey = *inline;
                *self = LockKeys::Vec(vec![first, key]);
            },
            LockKeys::Vec(vec) => {
                vec.push(key);
            },
        }
        assert(self@ =~= old(self)@.push(key));
    }

    pub fn truncate(&mut self, len: usize)
        ensures
            final(self)@ == (if len < old(self)@.len() {
                old(self)@.take(len as int)
            } else {
                old(self)@
            }),
            *final(self) is Vec <==> *old(self) is Vec,
    {
        match self {
            LockKeys::Empty => {},
            LockKeys::Inline(_) => {
                if len == 0 {
                    *self = LockKeys::Empty;
                }
            },
            LockKeys::Vec(vec) => {
                vec.truncate(len);
            },
        }
        assert(len < old(self)@.len() ==> self@ =~= old(self)@.take(len as int));
    }

    pub fn len(&self) -> (len: usize)
        ensures
            len == self@.len(),
    {
        match self {
            LockKeys::Empty => 0,
            LockKeys::Inline(_) => 1,
            LockKeys::Vec(vec) => vec.len(),
        }
    }

    /// Returns the key at `index`.
    pub fn get(&self, index: usize) -> (key: LockKey)
        requires
            index < self@.len(),
        ensures
            key == self@[index as int],
    {
        match self {
            LockKeys::Empty => LockKey::Filesystem,
            LockKeys::Inline(key) => *key,
            LockKeys::Vec(vec) => vec[index],
        }
    }

    pub fn contains(&self, key: &LockKey) -> (found: bool)
        ensures
            found == self@.contains(*key),
    {
        let mut index: usize = 0;
        while index < self.len()
            invariant
                index <= self@.len(),
                forall|i: int| 0 <= i < index ==> self@[i] != *key,
            decreases self@.len() - index,
        {
            if self.get(index) == *key {
                return true;
            }
            index += 1;
        }
        false
    }

    /// Returns whether no key occurs twice.
    pub fn are_different(&self) -> (different: bool)
        ensures
            different == self@.no_duplicates(),
    {
        let len: usize = self.len();
        let mut i: usize = 0;
        while i < len
            invariant
                i <= len,
                len == self@.len(),
                forall|a: int, b: int| 0 <= a < i && a < b < len ==> self@[a] != self@[b],
            decreases len - i,
        {
            let first = self.get(i);
            let mut k: usize = i + 1;
            while k < len
                invariant
                    i < k <= len,
                    len == self@.len(),
                    first == self@[i as int],
                    forall|b: int| i < b < k ==> self@[i as int] != self@[b],
                decreases len - k,
            {
                if first == self.get(k) {
                    return false;
                }
                k += 1;
            }
            i += 1;
        }
        true
    }

    /// Copies the keys.
    pub fn duplicate(&self) -> (copy: LockKeys)
        ensures
            copy@ == self@,
    {
        match self {
            LockKeys::Empty => LockKeys::Empty,
            LockKeys::Inline(key) => LockKeys::Inline(*key),
            LockKeys::Vec(vec) => {
                let copy = vec.clone();
                assert(copy@ =~= vec@);
                LockKeys::Vec(copy)
            },
        }
    }

    /// Returns the keys as a slice.
    pub fn as_slice(&self) -> (slice: &[LockKey])
        ensures
            slice@ == self@,
    {
        match self {
            LockKeys::Empty => &[],
            LockKeys::Inline(key) => core::slice::from_ref(key),
            LockKeys::Vec(vec) => vec.as_slice(),
        }
    }

    /// Returns an iterator that yields the keys in order.
    pub fn iter(&self) -> (iter: core::slice::Iter<'_, LockKey>)
        ensures
            iter.remaining().unref() == self@,
    {
        self.as_slice().iter()
    }

    /// Sorts the keys by the order in which locks are acquired.
    pub fn sort_unstable(&mut self)
        ensures
            is_sorted(final(self)@),
            final(self)@.to_multiset() == old(self)@.to_multiset(),
            final(self)@.len() == old(self)@.len(),
            !(*old(self) is Vec) ==> *final(self) == *old(self),
            *old(self) is Vec ==> *final(self) is Vec,
    {
        match self {
            LockKeys::Vec(vec) => {
                sort_keys(vec);
            },
            _ => {},
        }
    }

    /// Removes all but the first of each run of equal keys.
    pub fn dedup(&mut self)
        ensures
            final(self)@ == without_runs(old(self)@),
            !(*old(self) is Vec) ==> *final(self) == *old(self),
            *old(self) is Vec ==> *final(self) is Vec,
    {
        match self {
            LockKeys::Vec(vec) => {
                dedup_keys(vec);
            },
            _ => {},
        }
    }
}

/// Removes all but the first of each run of equal keys.
fn dedup_keys(vec: &mut Vec<LockKey>)
    ensures
        final(vec)@ == without_runs(old(vec)@),
{
    let ghost whole = vec@;
    let ghost mut read: int = 0;
    let mut kept: usize = 0;
    while kept < vec.len()
        invariant
            kept <= vec@.len(),
            whole == old(vec)@,
            0 <= read <= whole.len(),
            vec@ == without_runs(whole.take(read)) + whole.skip(read),
            without_runs(whole.take(read)).len() == kept,
            read > 0 ==> kept > 0 && without_runs(whole.take(read)).last() == whole[read - 1],
        decreases vec@.len() - kept,
    {
        proof {
            assert(whole.take(read + 1).drop_last() =~= whole.take(read));
            assert(vec@[kept as int] == whole[read]);
            if read > 0 {
                assert(vec@[kept - 1] == whole[read - 1]);
            } else {
                assert(without_runs(whole.take(read)) =~= Seq::empty());
                assert(kept == 0);
            }
        }
        if kept > 0 && vec[kept] == vec[kept - 1] {
            let _ = vec.remove(kept);
            proof {
                assert(without_runs(whole.take(read + 1)) == without_runs(whole.take(read)));
                assert(vec@ =~= without_runs(whole.take(read + 1)) + whole.skip(read + 1));
            }
        } else {
            proof {
                let r = without_runs(whole.take(read)).push(whole[read]);
                assert(without_runs(whole.take(read + 1)) =~= r);
                assert(vec@ =~= r + whole.skip(read + 1));
            }
            kept += 1;
        }
        proof {
            read = read + 1;
        }
    }
    proof {
        assert(whole.skip(read).len() == 0);
        assert(whole.take(read) =~= whole);
        assert(vec@ =~= without_runs(whole));
    }
}

/// Every key comes before those that stand after it; in particular, none occurs twice.
pub open spec fn is_strictly_sorted(keys: Seq<LockKey>) -> bool {
    forall|i: int, j: int|
        #![trigger keys[i], keys[j]]
        0 <= i < j < keys.len() ==> keys[i].precedes(keys[j])
}

/// Removing runs from sorted keys leaves every key once, in order.
pub proof fn lemma_without_runs_of_sorted(keys: Seq<LockKey>)
    requires
        is_sorted(keys),
    ensures
        is_strictly_sorted(without_runs(keys)),
        without_runs(keys).to_set() == keys.to_set(),
        without_runs(keys).len() <= keys.len(),
        keys.len() > 0 ==> without_runs(keys).len() > 0 && without_runs(keys).last()
            == keys.last(),
    decreases keys.len(),
{
    if keys.len() > 1 {
        let rest = keys.drop_last();
        let r = without_runs(rest);
        assert(is_sorted(rest));
        lemma_without_runs_of_sorted(rest);
        let t = without_runs(keys);
        assert forall|key: LockKey| keys.to_set().contains(key) <==> t.to_set().contains(key) by {
            if keys.contains(key) {
                let i = choose|i: int| 0 <= i < keys.len() && keys[i] == key;
                if i < rest.len() {
                    assert(rest[i] == key);
                    assert(rest.to_set().contains(key));
                    let k = choose|k: int| 0 <= k < r.len() && r[k] == key;
                    assert(t[k] == key);
                } else {
                    assert(t[t.len() - 1] == key);
                }
            }
            if t.contains(key) {
                let i = choose|i: int| 0 <= i < t.len() && t[i] == key;
                if i < r.len() {
                    assert(r[i] == key);
                    assert(r.to_set().contains(key));
                    assert(rest.to_set().contains(key));
                    let k = choose|k: int| 0 <= k < rest.len() && rest[k] == key;
                    assert(keys[k] == key);
                } else {
                    assert(keys[keys.len() - 1] == key);
                }
            }
        }
        assert(t.to_set() =~= keys.to_set());
        if keys.last() != rest.last() {
            assert(!keys[keys.len() - 1].precedes(keys[keys.len() - 2]));
            lemma_precedes_total_order(rest.last(), keys.last(), keys.last());
            assert forall|i: int, j: int|
                #![trigger t[i], t[j]]
                0 <= i < j < t.len() implies t[i].precedes(t[j]) by {
                if j == r.len() {
                    if i < r.len() - 1 {
                        assert(r[i].precedes(r[r.len() - 1]));
                    }
                    lemma_precedes_total_order(t[i], r.last(), t[j]);
                } else {
                    assert(t[i] == r[i] && t[j] == r[j]);
                }
            }
        }
    } else {
        assert(without_runs(keys) == keys);
    }
}

/// Two transactions that lock the same keys, however they list them, acquire them in the same
/// order: there is only one way to list a set of keys in strict order.
pub proof fn lemma_one_acquisition_order(a: Seq<LockKey>, b: Seq<LockKey>)
    requires
        is_strictly_sorted(a),
        is_strictly_sorted(b),
        a.to_set() == b.to_set(),
    ensures
        a == b,
    decreases a.len(),
{
    if a.len() == 0 {
        if b.len() > 0 {
            assert(b.to_set().contains(b[0]));
            assert(a.to_set().contains(b[0]));
        }
        assert(a =~= b);
    } else {
        assert(a.to_set().contains(a[0]));
        assert(b.contains(a[0]));
        assert(a.to_set().contains(a.last()));
        assert(b.to_set().contains(a.last()));
        assert(b.to_set().contains(b.last()));
        assert(a.to_set().contains(b.last()));
        let i = choose|i: int| 0 <= i < b.len() && b[i] == a.last();
        let j = choose|j: int| 0 <= j < a.len() && a[j] == b.last();
        lemma_precedes_total_order(a.last(), b.last(), a.last());
        assert(a.last() == b.last());
        let (x, y) = (a.drop_last(), b.drop_last());
        assert forall|key: LockKey| x.to_set().contains(key) <==> y.to_set().contains(key) by {
            if x.contains(key) {
                let k = choose|k: int| 0 <= k < x.len() && x[k] == key;
                assert(a[k] == key);
                assert(a[k].precedes(a[a.len() - 1]));
                assert(a.to_set().contains(key));
                assert(b.to_set().contains(key));
                lemma_precedes_total_order(key, a.last(), key);
                let m = choose|m: int| 0 <= m < b.len() && b[m] == key;
                assert(y[m] == key);
            }
            if y.contains(key) {
                let k = choose|k: int| 0 <= k < y.len() && y[k] == key;
                assert(b[k] == key);
                assert(b[k].precedes(b[b.len() - 1]));
                assert(b.to_set().contains(key));
                assert(a.to_set().contains(key));
                lemma_precedes_total_order(key, b.last(), key);
                let m = choose|m: int| 0 <= m < a.len() && a[m] == key;
                assert(x[m] == key);
            }
        }
        assert(x.to_set() =~= y.to_set());
        lemma_one_acquisition_order(x, y);
        assert(a =~= x.push(a.last()));
        assert(b =~= y.push(b.last()));
    }
}

impl Default for LockKeys {
    fn default() -> (keys: Self)
        ensures
            keys == LockKeys::Empty,
    {
        LockKeys::Empty
    }
}

/// After the filesystem and flushes come the locks on attributes, then those on objects, on projects and on
/// truncations.  Within a kind, locks come by store, then by object or project, then by attribute.
pub proof fn lemma_locks_come_by_kind_then_by_identifier(a: [u64; 3], b: [u64; 3])
    ensures
        ({
            let attribute_a = LockKey::ObjectAttribute {
                store_object_id: a@[0],
                object_id: a@[1],
                attribute_id: a@[2],
            };
            let attribute_b = LockKey::ObjectAttribute {
                store_object_id: b@[0],
                object_id: b@[1],
                attribute_id: b@[2],
            };
            let object_a = LockKey::Object { store_object_id: a@[0], object_id: a@[1] };
            let object_b = LockKey::Object { store_object_id: b@[0], object_id: b@[1] };
            let project_a = LockKey::ProjectId { store_object_id: a@[0], project_id: a@[1] };
            let project_b = LockKey::ProjectId { store_object_id: b@[0], project_id: b@[1] };
            let truncate_a = LockKey::Truncate { store_object_id: a@[0], object_id: a@[1] };
            let truncate_b = LockKey::Truncate { store_object_id: b@[0], object_id: b@[1] };
            let pair_before = a@[0] < b@[0] || a@[0] == b@[0] && a@[1] < b@[1];
            &&& attribute_a.precedes(object_b)
            &&& object_a.precedes(project_b)
            &&& project_a.precedes(truncate_b)
            &&& attribute_a.precedes(attribute_b) <==> pair_before || a@[0] == b@[0] && a@[1] == b@[1]
                && a@[2] < b@[2]
            &&& object_a.precedes(object_b) <==> pair_before
            &&& project_a.precedes(project_b) <==> pair_before
            &&& truncate_a.precedes(truncate_b) <==> pair_before
            &&& (LockKey::Flush { object_id: a@[0] }).precedes(LockKey::Flush { object_id: b@[0] })
                <==> a@[0] < b@[0]
        }),
{
}

/// Removing runs drops nothing but repetitions: neighbours that are left differ, and where no neighbours are equal
/// nothing is dropped.
pub proof fn lemma_only_repetitions_are_dropped(keys: Seq<LockKey>)
    ensures
        without_runs(keys).len() <= keys.len(),
        keys.len() > 0 ==> without_runs(keys).len() > 0 && without_runs(keys).last() == keys.last()
            && without_runs(keys)[0] == keys[0],
        forall|i: int|
            #![trigger without_runs(keys)[i]]
            0 < i < without_runs(keys).len() ==> without_runs(keys)[i] != without_runs(keys)[i - 1],
        (forall|i: int| 0 < i < keys.len() ==> #[trigger] keys[i] != keys[i - 1]) ==> without_runs(keys)
            == keys,
    decreases keys.len(),
{
    if keys.len() > 1 {
        let rest = keys.drop_last();
        lemma_only_repetitions_are_dropped(rest);
        let r = without_runs(rest);
        let t = without_runs(keys);
        assert(r.last() == keys[keys.len() - 2]);
        assert forall|i: int| #![trigger t[i]] 0 < i < t.len() implies t[i] != t[i - 1] by {
            if i < r.len() {
                assert(t[i] == r[i]);
                assert(t[i - 1] == r[i - 1]);
            }
        }
        if forall|i: int| 0 < i < keys.len() ==> #[trigger] keys[i] != keys[i - 1] {
            assert forall|i: int| 0 < i < rest.len() implies #[trigger] rest[i] != rest[i - 1] by {
                assert(rest[i] == keys[i]);
            }
            assert(keys[keys.len() - 1] != keys[keys.len() - 2]);
            assert(t =~= keys);
        }
    }
}

} // verus!
