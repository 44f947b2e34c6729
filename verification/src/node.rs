//! Nodes of the filesystem hierarchy, and the cache that holds those that are in memory.
use crate::object_record::ObjectDescriptor;
use std::collections::BTreeMap;
use vstd::prelude::*;
use vstd::std_specs::cmp::OrdSpec;
use vstd::std_specs::btree::*;
use vstd::std_specs::iter::IteratorSpec;

verus! {

broadcast use vstd::std_specs::btree::group_btree_axioms;

/// FxNode is a node in the filesystem hierarchy (either a file or directory).
pub trait FxNode: Sized {
    /// What is to be done once an open count was given up.
    type Closed;

    /// The object of the node.
    spec fn spec_object_id(&self) -> u64;

    /// Whether the node knows the directory that it is in.
    spec fn knows_parent(&self) -> bool;

    /// The object of the directory that the node is in.
    spec fn spec_parent(&self) -> Option<u64>;

    /// How many open counts there are.
    spec fn open_counts(&self) -> int;

    /// Whether another open count can be taken.
    spec fn can_open(&self) -> bool;

    /// The node is as `before`, with one more open count.
    spec fn is_opened(&self, before: &Self) -> bool;

    /// The node is as `before`, with one open count less, and `closed` is to be done about that.
    spec fn is_closed(&self, before: &Self, closed: &Self::Closed) -> bool;

    fn object_id(&self) -> (id: u64)
        ensures
            id == self.spec_object_id(),
    ;

    /// Returns the object of the directory that the node is in.  Only a node that knows it is asked.
    fn parent(&self) -> (parent: Option<u64>)
        requires
            self.knows_parent(),
        ensures
            parent == self.spec_parent(),
    ;

    /// Tells the node the object of the directory that it is in.
    fn set_parent(&mut self, parent: u64)
        ensures
            final(self).knows_parent() == old(self).knows_parent(),
            final(self).knows_parent() ==> final(self).spec_parent() == Some(parent),
            final(self).spec_object_id() == old(self).spec_object_id(),
            final(self).open_counts() == old(self).open_counts(),
    ;

    fn open_count_add_one(&mut self)
        requires
            old(self).can_open(),
        ensures
            final(self).is_opened(old(self)),
            final(self).spec_object_id() == old(self).spec_object_id(),
            final(self).open_counts() == old(self).open_counts() + 1,
    ;

    fn open_count_sub_one(&mut self) -> (closed: Self::Closed)
        requires
            old(self).open_counts() > 0,
        ensures
            final(self).is_closed(old(self), &closed),
            final(self).spec_object_id() == old(self).spec_object_id(),
            final(self).open_counts() == old(self).open_counts() - 1,
    ;

    fn object_descriptor(&self) -> ObjectDescriptor;

    /// Called when the filesystem is shutting down.  Implementations should break any strong reference
    /// cycles that would prevent the node from being dropped.
    fn terminate(&mut self)
        ensures
            final(self).spec_object_id() == old(self).spec_object_id(),
            final(self).open_counts() == old(self).open_counts(),
        default_ensures
            *final(self) == *old(self),
    {
    }
}

/// Wraps a node with an open count.
pub struct OpenedNode<N>(pub N);

impl<N: FxNode> OpenedNode<N> {
    /// This wraps `node`, and has taken one open count of it.
    pub open spec fn wraps(self, node: N) -> bool {
        &&& self.0.is_opened(&node)
        &&& self.0.spec_object_id() == node.spec_object_id()
        &&& self.0.open_counts() == node.open_counts() + 1
    }

    /// `node` is what this wraps, once the open count was given up.
    pub open spec fn leaves(self, node: N, closed: N::Closed) -> bool {
        &&& node.is_closed(&self.0, &closed)
        &&& node.spec_object_id() == self.0.spec_object_id()
        &&& node.open_counts() == self.0.open_counts() - 1
    }

    pub fn new(node: N) -> (opened: Self)
        requires
            node.can_open(),
        ensures
            opened.wraps(node),
    {
        let mut node = node;
        node.open_count_add_one();
        OpenedNode(node)
    }

    /// Takes the wrapped node.  The caller takes responsibility for dropping the open count.
    pub fn take(self) -> (node: N)
        ensures
            node == self.0,
    {
        self.0
    }

    /// Gives up the open count.  Returns the node, and what is to be done about it.
    pub fn close(self) -> (result: (N, N::Closed))
        requires
            self.0.open_counts() > 0,
        ensures
            self.leaves(result.0, result.1),
    {
        let mut node = self.take();
        let closed = node.open_count_sub_one();
        (node, closed)
    }
}

/// Whatever the node, opening it and then closing it leaves its open count as it was, while opening it and
/// then taking it out leaves the open count one higher.
pub proof fn lemma_close_undoes_new<N: FxNode>(
    node: N,
    opened: OpenedNode<N>,
    after: N,
    closed: N::Closed,
)
    requires
        opened.wraps(node),
        opened.leaves(after, closed),
    ensures
        after.open_counts() == node.open_counts(),
        after.spec_object_id() == node.spec_object_id(),
        opened.0.open_counts() == node.open_counts() + 1,
        opened.0.spec_object_id() == node.spec_object_id(),
{
}

/// A weak reference to a node: the address of the node that it was made for, and whether that is a file.
#[derive(Clone, Copy, Debug, PartialEq, Eq, Structural)]
pub struct WeakNode {
    pub node: u64,
    pub is_file: bool,
}

/// Used to convert nodes into `WeakNode` which is stored in the cache.
pub trait ToWeakNode {
    fn to_weak_node(&self) -> WeakNode;
}

/// What the cache holds for an object.
#[derive(Clone, Copy, Debug, PartialEq, Eq, Structural)]
pub enum CacheEntry {
    /// Somebody is about to load the node.
    Placeholder(u64),
    /// The node.
    Node(WeakNode),
}

/// The place of a caller among those that wait for a placeholder.
#[derive(Clone, Copy, Debug, PartialEq, Eq, Structural)]
pub struct WaitTicket {
    pub sequence: u64,
    pub index: usize,
}

impl WaitTicket {
    /// The ticket of a caller that did not wait yet.
    pub fn new() -> (ticket: Self)
        ensures
            ticket == (WaitTicket { sequence: 0, index: 0 }),
    {
        WaitTicket { sequence: 0, index: 0 }
    }
}

/// PlaceholderOwner is a reserved slot in the node cache.
#[derive(Debug, PartialEq, Eq, Structural)]
pub struct PlaceholderOwner {
    pub object_id: u64,
    pub sequence: u64,
}

/// See NodeCache::get_or_reserve.
#[derive(Debug, PartialEq, Eq, Structural)]
pub enum GetResult {
    /// The caller is to load the node.
    Placeholder(PlaceholderOwner),
    /// The node is there.
    Node(WeakNode),
    /// Somebody else is about to load the node; the caller will be woken.
    Pending,
}

impl GetResult {
    pub fn placeholder(self) -> (placeholder: Option<PlaceholderOwner>)
        ensures
            placeholder == (match self {
                GetResult::Placeholder(placeholder) => Some(placeholder),
                _ => None,
            }),
    {
        match self {
            GetResult::Placeholder(placeholder) => Some(placeholder),
            _ => None,
        }
    }
}

/// The content of a cache: its entries by object ID; for each placeholder with an owner, by its number,
/// those that wait for it; and how many placeholders there have been.
#[verifier::ext_equal]
pub struct CacheView<W> {
    pub entries: Map<u64, CacheEntry>,
    pub waiting: Map<u64, Seq<W>>,
    pub placeholders: nat,
}

/// What a caller that looks for a node finds.
pub enum Found {
    /// Nothing that could be used.
    Vacant,
    /// A node.
    Node(WeakNode),
    /// The placeholder of another caller.
    Placeholder(u64),
}

impl<W> CacheView<W> {
    /// What there is for `object_id`, where `alive` says whether a node can still be used.
    pub open spec fn find(self, object_id: u64, alive: bool) -> Found {
        if !self.entries.contains_key(object_id) {
            Found::Vacant
        } else {
            match self.entries[object_id] {
                CacheEntry::Placeholder(sequence) => if self.waiting.contains_key(sequence) {
                    Found::Placeholder(sequence)
                } else {
                    Found::Vacant
                },
                CacheEntry::Node(node) => if alive {
                    Found::Node(node)
                } else {
                    Found::Vacant
                },
            }
        }
    }

    /// The number of the next placeholder.
    pub open spec fn next(self) -> u64 {
        (self.placeholders + 1) as u64
    }

    /// With a new placeholder for `object_id`.
    pub open spec fn reserved(self, object_id: u64) -> Self {
        CacheView {
            entries: self.entries.insert(object_id, CacheEntry::Placeholder(self.next())),
            waiting: self.waiting.insert(self.next(), Seq::empty()),
            placeholders: self.placeholders + 1,
        }
    }

    /// With `waker` among those that wait for the placeholder `sequence`: in its old place if it waited
    /// for the same placeholder before, and last otherwise.
    pub open spec fn with_waiter(self, sequence: u64, ticket: WaitTicket, waker: W) -> Self {
        let wakers = self.waiting[sequence];
        CacheView {
            waiting: self.waiting.insert(
                sequence,
                if sequence == ticket.sequence {
                    wakers.update(ticket.index as int, waker)
                } else {
                    wakers.push(waker)
                },
            ),
            ..self
        }
    }

    /// What a caller that looks for `object_id` is answered, and the cache after that.  A caller that waited
    /// before has `ticket`.
    pub open spec fn called(
        self,
        object_id: u64,
        alive: bool,
        ticket: WaitTicket,
        waker: W,
    ) -> (CacheView<W>, GetResult) {
        match self.find(object_id, alive) {
            Found::Placeholder(sequence) => (
                self.with_waiter(sequence, ticket, waker),
                GetResult::Pending,
            ),
            Found::Node(node) => (self, GetResult::Node(node)),
            Found::Vacant => (
                self.reserved(object_id),
                GetResult::Placeholder(PlaceholderOwner { object_id, sequence: self.next() }),
            ),
        }
    }

    /// What callers that look for `object_id` one after the other, none of which waited before, are
    /// answered, and the cache after that.
    pub open spec fn called_by_all(
        self,
        object_id: u64,
        alive: bool,
        wakers: Seq<W>,
    ) -> (CacheView<W>, Seq<GetResult>)
        decreases wakers.len(),
    {
        if wakers.len() == 0 {
            (self, Seq::empty())
        } else {
            let (before, answers) = self.called_by_all(object_id, alive, wakers.drop_last());
            let ticket = WaitTicket { sequence: 0, index: 0 };
            let (after, answer) = before.called(object_id, alive, ticket, wakers.last());
            (after, answers.push(answer))
        }
    }

    /// Those that wait for the placeholder of `owner`.
    pub open spec fn waiters(self, owner: PlaceholderOwner) -> Seq<W> {
        if self.waiting.contains_key(owner.sequence) {
            self.waiting[owner.sequence]
        } else {
            Seq::empty()
        }
    }

    /// With `node` in the place that `owner` reserved.
    pub open spec fn committed(self, owner: PlaceholderOwner, node: WeakNode) -> Self {
        CacheView {
            entries: self.entries.insert(owner.object_id, CacheEntry::Node(node)),
            waiting: self.waiting.remove(owner.sequence),
            ..self
        }
    }

    /// Without the placeholder of `owner`, which has nothing to commit.
    pub open spec fn abandoned(self, owner: PlaceholderOwner) -> Self {
        CacheView {
            entries: self.entries.remove(owner.object_id),
            waiting: self.waiting.remove(owner.sequence),
            ..self
        }
    }

    /// Without the node at the address `node`, if that is what there is for `object_id`.
    pub open spec fn without_node(self, object_id: u64, node: u64) -> Self {
        CacheView {
            entries: if self.entries.contains_key(object_id) && (
            self.entries[object_id] matches CacheEntry::Node(weak) && weak.node == node) {
                self.entries.remove(object_id)
            } else {
                self.entries
            },
            ..self
        }
    }

    /// Placeholders are numbered from one on.
    pub open spec fn wf(self) -> bool {
        &&& self.placeholders <= u64::MAX
        &&& forall|sequence: u64| #[trigger]
            self.waiting.contains_key(sequence) ==> 0 < sequence <= self.placeholders
    }

    /// `ticket` is new, or was given out by this cache.
    pub open spec fn is_ticket(self, ticket: WaitTicket) -> bool {
        &&& ticket.sequence <= self.placeholders
        &&& self.waiting.contains_key(ticket.sequence) ==> ticket.index
            < self.waiting[ticket.sequence].len()
    }

    /// `id` is the smallest object ID greater than `after` of which the cache holds a file.
    pub open spec fn is_next_file(self, after: Option<u64>, id: u64) -> bool {
        &&& self.is_file_after(after, id)
        &&& forall|other: u64| #[trigger] self.is_file_after(after, other) ==> id <= other
    }

    /// The cache holds a file of that ID, which is greater than `after`.
    pub open spec fn is_file_after(self, after: Option<u64>, id: u64) -> bool {
        &&& self.entries.contains_key(id)
        &&& (self.entries[id] matches CacheEntry::Node(node) && node.is_file)
        &&& (after matches Some(last) ==> last < id)
    }
}

/// NodeCache is an in-memory cache of weak node references.
pub struct NodeCache<W> {
    map: BTreeMap<u64, CacheEntry>,
    waiting: BTreeMap<u64, Vec<W>>,
    next_waker_sequence: u64,
}

impl<W> View for NodeCache<W> {
    type V = CacheView<W>;

    closed spec fn view(&self) -> CacheView<W> {
        CacheView {
            entries: self.map@,
            waiting: self.waiting@.map_values(|wakers: Vec<W>| wakers@),
            placeholders: self.next_waker_sequence as nat,
        }
    }
}

impl<W> NodeCache<W> {
    pub fn new() -> (cache: Self)
        ensures
            cache@.wf(),
            cache@ == (CacheView::<W> {
                entries: Map::empty(),
                waiting: Map::empty(),
                placeholders: 0,
            }),
    {
        let cache = NodeCache {
            map: BTreeMap::new(),
            waiting: BTreeMap::new(),
            next_waker_sequence: 0,
        };
        assert(cache@.waiting =~= Map::empty());
        cache
    }

    /// Gets a node in the cache, or reserves a placeholder in the cache to fill.
    ///
    /// Only the first caller will receive a placeholder result; all callers after that will have to wait
    /// until the placeholder is filled (or the placeholder is dropped, at which point the next
    /// caller would get a placeholder). Callers that receive a placeholder should later commit a
    /// node with NodeCache::commit.
    ///
    /// `alive` says whether a node that is in the cache can still be used.  A caller that waited before
    /// passes its ticket again.
    pub fn get_or_reserve(
        &mut self,
        object_id: u64,
        ticket: &mut WaitTicket,
        waker: W,
        alive: bool,
    ) -> (result: GetResult)
        requires
            old(self)@.wf(),
            old(self)@.placeholders < u64::MAX,
            old(self)@.is_ticket(*old(ticket)),
        ensures
            final(self)@.wf(),
            final(self)@.is_ticket(*final(ticket)),
            (final(self)@, result) == old(self)@.called(object_id, alive, *old(ticket), waker),
            match old(self)@.find(object_id, alive) {
                Found::Placeholder(sequence) => {
                    &&& final(ticket).sequence == sequence
                    &&& final(self)@.waiting[sequence][final(ticket).index as int] == waker
                },
                _ => *final(ticket) == *old(ticket),
            },
    {
        let ghost before = self@;
        match self.map.get(&object_id) {
            Some(CacheEntry::Placeholder(sequence)) => {
                let sequence: u64 = *sequence;
                match self.waiting.remove(&sequence) {
                    Some(taken) => {
                        let mut wakers = taken;
                        if sequence == ticket.sequence {
                            wakers.set(ticket.index, waker);
                        } else {
                            ticket.index = wakers.len();
                            ticket.sequence = sequence;
                            wakers.push(waker);
                        }
                        let ghost put = wakers@;
                        let _ = self.waiting.insert(sequence, wakers);
                        assert(self@.waiting =~= before.waiting.insert(sequence, put));
                        return GetResult::Pending;
                    },
                    None => {
                        assert(self@.waiting =~= before.waiting);
                    },
                }
            },
            Some(CacheEntry::Node(node)) => {
                if alive {
                    return GetResult::Node(*node);
                }
            },
            None => {},
        }
        self.next_waker_sequence = self.next_waker_sequence + 1;
        let sequence: u64 = self.next_waker_sequence;
        let _ = self.map.insert(object_id, CacheEntry::Placeholder(sequence));
        let wakers: Vec<W> = Vec::new();
        let ghost put = wakers@;
        let _ = self.waiting.insert(sequence, wakers);
        proof {
            assert(put =~= Seq::empty());
            assert(self@.waiting =~= before.waiting.insert(sequence, put));
        }
        GetResult::Placeholder(PlaceholderOwner { object_id, sequence })
    }

    /// Commits a node, which is that of the object `object_id`, to the cache, replacing its placeholder.
    /// Returns the wakers of the callers that waited for it, which are to be woken.
    pub fn commit(&mut self, owner: PlaceholderOwner, object_id: u64, node: WeakNode) -> (wakers: Vec<
        W,
    >)
        requires
            old(self)@.wf(),
            object_id == owner.object_id,
        ensures
            final(self)@.wf(),
            final(self)@ == old(self)@.committed(owner, node),
            wakers@ == old(self)@.waiters(owner),
    {
        let _ = self.map.insert(object_id, CacheEntry::Node(node));
        let wakers = self.release(owner.sequence);
        proof {
            lemma_waiting_shrinks(*old(self), *self, owner.sequence);
        }
        wakers
    }

    /// Drops a placeholder that was not committed, so that another caller that waits can take the slot.
    /// Returns the wakers of the callers that waited for it, which are to be woken.
    pub fn drop_placeholder(&mut self, owner: PlaceholderOwner) -> (wakers: Vec<W>)
        requires
            old(self)@.wf(),
        ensures
            final(self)@.wf(),
            final(self)@ == old(self)@.abandoned(owner),
            wakers@ == old(self)@.waiters(owner),
    {
        let _ = self.map.remove(&owner.object_id);
        let wakers = self.release(owner.sequence);
        proof {
            lemma_waiting_shrinks(*old(self), *self, owner.sequence);
        }
        wakers
    }

    fn release(&mut self, sequence: u64) -> (wakers: Vec<W>)
        ensures
            final(self)@ == (CacheView::<W> {
                waiting: old(self)@.waiting.remove(sequence),
                ..old(self)@
            }),
            wakers@ == (if old(self)@.waiting.contains_key(sequence) {
                old(self)@.waiting[sequence]
            } else {
                Seq::empty()
            }),
    {
        let ghost before = self@;
        let released = self.waiting.remove(&sequence);
        assert(self@.waiting =~= before.waiting.remove(sequence));
        match released {
            Some(wakers) => wakers,
            None => Vec::new(),
        }
    }

    /// Removes a node from the cache.
    ///
    /// If this method is called when a node is being dropped, then it's possible the cache has been
    /// populated with another node, so to avoid that race, the node in the cache must be the node we want
    /// to remove.
    pub fn remove(&mut self, object_id: u64, node: u64)
        requires
            old(self)@.wf(),
        ensures
            final(self)@.wf(),
            final(self)@ == old(self)@.without_node(object_id, node),
            final(self)@ == (CacheView::<W> {
                entries: if old(self)@.entries.contains_key(object_id) && (
                old(self)@.entries[object_id] matches CacheEntry::Node(weak) && weak.node == node) {
                    old(self)@.entries.remove(object_id)
                } else {
                    old(self)@.entries
                },
                ..old(self)@
            }),
    {
        let is_node = match self.map.get(&object_id) {
            Some(CacheEntry::Node(weak)) => weak.node == node,
            _ => false,
        };
        if is_node {
            let _ = self.map.remove(&object_id);
        }
    }

    /// Returns what is present in the cache for the given node.
    pub fn get(&self, object_id: u64) -> (entry: Option<CacheEntry>)
        ensures
            entry == (if self@.entries.contains_key(object_id) {
                Some(self@.entries[object_id])
            } else {
                None
            }),
    {
        match self.map.get(&object_id) {
            Some(entry) => Some(*entry),
            None => None,
        }
    }

    /// Returns the next file in the cache after the one with the given object ID, skipping directories.
    pub fn next_file(&self, after: Option<u64>) -> (file: Option<(u64, WeakNode)>)
        ensures
            match file {
                Some((id, node)) => {
                    &&& self@.is_next_file(after, id)
                    &&& self@.entries[id] == CacheEntry::Node(node)
                },
                None => forall|id: u64| !#[trigger] self@.is_file_after(after, id),
            },
    {
        for item in it: self.map.iter()
            invariant
                forall|i: int|
                    0 <= i < it.index() ==> !self@.is_file_after(after, *(#[trigger] it.seq()[i]).0),
                it.seq() == self.map.iter().remaining(),
                increasing_seq(it.seq().map_values(|kv: (&u64, &CacheEntry)| *kv.0)),
        {
            let (id, entry) = item;
            let is_after = match after {
                Some(last) => last < *id,
                None => true,
            };
            if is_after {
                if let CacheEntry::Node(node) = entry {
                    if node.is_file {
                        proof {
                            let keys = it.seq().map_values(|kv: (&u64, &CacheEntry)| *kv.0);
                            lemma_increasing(keys);
                            assert(keys[it.index() as int] == *id);
                            assert(self.map@.contains_key(*it.seq()[it.index() as int].0));
                            assert forall|other: u64| #[trigger]
                                self@.is_file_after(after, other) implies *id <= other by {
                                let at = it.seq().index_of((&other, &self.map@[other]));
                                assert(it.seq().contains((&other, &self.map@[other])));
                                assert(keys[at] == other);
                            }
                        }
                        return Some((*id, *node));
                    }
                }
            }
        }
        None
    }

    /// Takes all nodes out of the cache; they are returned by increasing object ID.
    pub fn terminate(&mut self) -> (nodes: Vec<(u64, CacheEntry)>)
        requires
            old(self)@.wf(),
        ensures
            final(self)@.wf(),
            final(self)@ == (CacheView::<W> { entries: Map::empty(), ..old(self)@ }),
            forall|i: int, j: int| 0 <= i < j < nodes@.len() ==> nodes@[i].0 < nodes@[j].0,
            forall|i: int|
                0 <= i < nodes@.len() ==> old(self)@.entries.contains_key(
                    (#[trigger] nodes@[i]).0,
                ) && old(self)@.entries[nodes@[i].0] == nodes@[i].1,
            forall|id: u64| #[trigger]
                old(self)@.entries.contains_key(id) ==> nodes@.contains(
                    (id, old(self)@.entries[id]),
                ),
    {
        let mut nodes: Vec<(u64, CacheEntry)> = Vec::new();
        for item in it: self.map.iter()
            invariant
                nodes@.len() == it.index(),
                it.seq() == self.map.iter().remaining(),
                increasing_seq(it.seq().map_values(|kv: (&u64, &CacheEntry)| *kv.0)),
                forall|i: int|
                    0 <= i < it.index() ==> #[trigger] nodes@[i] == (
                        *it.seq()[i].0,
                        *it.seq()[i].1,
                    ),
        {
            nodes.push((*item.0, *item.1));
        }
        proof {
            let items = self.map.iter().remaining();
            let keys = items.map_values(|kv: (&u64, &CacheEntry)| *kv.0);
            lemma_increasing(keys);
            assert forall|i: int, j: int| 0 <= i < j < nodes@.len() implies nodes@[i].0
                < nodes@[j].0 by {
                assert(keys[i] == nodes@[i].0 && keys[j] == nodes@[j].0);
            }
            assert forall|id: u64| #[trigger] self.map@.contains_key(id) implies nodes@.contains(
                (id, self.map@[id]),
            ) by {
                let at = items.index_of((&id, &self.map@[id]));
                assert(items.contains((&id, &self.map@[id])));
                assert(nodes@[at] == (id, self.map@[id]));
            }
        }
        self.map.clear();
        nodes
    }
}

proof fn lemma_waiting_shrinks<W>(before: NodeCache<W>, after: NodeCache<W>, sequence: u64)
    requires
        before@.wf(),
        after@.waiting == before@.waiting.remove(sequence),
        after@.placeholders == before@.placeholders,
    ensures
        after@.wf(),
{
    assert forall|other: u64| #[trigger] after@.waiting.contains_key(other) implies 0 < other
        <= after@.placeholders by {
        assert(before@.waiting.contains_key(other));
    }
}

proof fn lemma_increasing(keys: Seq<u64>)
    requires
        increasing_seq(keys),
    ensures
        forall|i: int, j: int| 0 <= i < j < keys.len() ==> keys[i] < keys[j],
{
    broadcast use vstd::laws_cmp::group_laws_cmp;

    assert forall|i: int, j: int| 0 <= i < j < keys.len() implies keys[i] < keys[j] by {
        assert(keys[i].cmp_spec(&keys[j]) is Less);
    }
}

/// Only the first caller gets the placeholder: whoever looks for the node after that waits, and is in the
/// list of those to be woken.
pub proof fn lemma_later_callers_wait<W>(
    cache: CacheView<W>,
    object_id: u64,
    alive: bool,
    ticket: WaitTicket,
    waker: W,
)
    requires
        cache.wf(),
        cache.placeholders < u64::MAX,
        ticket.sequence <= cache.placeholders,
    ensures
        cache.reserved(object_id).find(object_id, alive) == Found::Placeholder(cache.next()),
        cache.reserved(object_id).with_waiter(cache.next(), ticket, waker).find(object_id, alive)
            == Found::Placeholder(cache.next()),
        cache.reserved(object_id).with_waiter(cache.next(), ticket, waker).waiters(
            PlaceholderOwner { object_id, sequence: cache.next() },
        ) == seq![waker],
{
    assert(Seq::<W>::empty().push(waker) =~= seq![waker]);
}

/// Once a node is committed, callers find it for as long as it can be used.
pub proof fn lemma_committed_node_is_found<W>(
    cache: CacheView<W>,
    owner: PlaceholderOwner,
    node: WeakNode,
)
    ensures
        cache.committed(owner, node).find(owner.object_id, true) == Found::Node(node),
        cache.committed(owner, node).find(owner.object_id, false) == Found::Vacant,
{
}

/// When a placeholder is dropped, the next caller gets a placeholder.
pub proof fn lemma_dropped_placeholder_frees_slot<W>(
    cache: CacheView<W>,
    owner: PlaceholderOwner,
    alive: bool,
)
    ensures
        cache.abandoned(owner).find(owner.object_id, alive) == Found::Vacant,
{
}

proof fn lemma_all_wait<W>(cache: CacheView<W>, object_id: u64, alive: bool, wakers: Seq<W>)
    requires
        cache.wf(),
        cache.placeholders < u64::MAX,
        cache.find(object_id, alive) is Vacant,
        wakers.len() > 0,
    ensures
        ({
            let (after, answers) = cache.called_by_all(object_id, alive, wakers);
            &&& after.entries == cache.reserved(object_id).entries
            &&& after.placeholders == cache.placeholders + 1
            &&& after.waiting == cache.waiting.insert(cache.next(), wakers.skip(1))
            &&& answers.len() == wakers.len()
            &&& answers[0] == GetResult::Placeholder(
                PlaceholderOwner { object_id, sequence: cache.next() },
            )
            &&& forall|i: int| 0 < i < answers.len() ==> #[trigger] answers[i] == GetResult::Pending
        }),
    decreases wakers.len(),
{
    let (after, answers) = cache.called_by_all(object_id, alive, wakers);
    if wakers.len() == 1 {
        assert(wakers.drop_last() =~= Seq::empty());
        assert(wakers.skip(1) =~= Seq::empty());
        assert(cache.called_by_all(object_id, alive, wakers.drop_last()) == (
            cache,
            Seq::<GetResult>::empty(),
        ));
    } else {
        lemma_all_wait(cache, object_id, alive, wakers.drop_last());
        assert(wakers.drop_last().skip(1).push(wakers.last()) =~= wakers.skip(1));
        assert(after.waiting =~= cache.waiting.insert(cache.next(), wakers.skip(1)));
    }
}

proof fn lemma_all_find<W>(cache: CacheView<W>, object_id: u64, node: WeakNode, wakers: Seq<W>)
    requires
        cache.find(object_id, true) == Found::Node(node),
    ensures
        cache.called_by_all(object_id, true, wakers) == (
            cache,
            Seq::new(wakers.len(), |i: int| GetResult::Node(node)),
        ),
    decreases wakers.len(),
{
    let answers = Seq::new(wakers.len(), |i: int| GetResult::Node(node));
    if wakers.len() > 0 {
        lemma_all_find(cache, object_id, node, wakers.drop_last());
        assert(Seq::new((wakers.len() - 1) as nat, |i: int| GetResult::Node(node)).push(
            GetResult::Node(node),
        ) =~= answers);
    } else {
        assert(answers =~= Seq::empty());
    }
}

/// However many callers look for a node that is not there: the first of them gets the placeholder, and all
/// the others wait, and are woken in order.  Once the first one commits a node, each of the others finds that
/// node.  If it drops the placeholder instead, the next of them gets a placeholder, and those after it wait
/// for that one.
pub proof fn lemma_one_caller_loads<W>(
    cache: CacheView<W>,
    object_id: u64,
    alive: bool,
    wakers: Seq<W>,
    node: WeakNode,
)
    requires
        cache.wf(),
        cache.placeholders + 1 < u64::MAX,
        cache.find(object_id, alive) is Vacant,
        wakers.len() > 0,
    ensures
        ({
            let (after, answers) = cache.called_by_all(object_id, alive, wakers);
            let owner = PlaceholderOwner { object_id, sequence: cache.next() };
            &&& answers.len() == wakers.len()
            &&& answers[0] == GetResult::Placeholder(owner)
            &&& forall|i: int| 0 < i < answers.len() ==> #[trigger] answers[i] == GetResult::Pending
            &&& after.waiters(owner) == wakers.skip(1)
            &&& after.committed(owner, node).called_by_all(object_id, true, wakers.skip(1)) == (
                after.committed(owner, node),
                Seq::new((wakers.len() - 1) as nat, |i: int| GetResult::Node(node)),
            )
            &&& wakers.len() > 1 ==> {
                let again = after.abandoned(owner).called_by_all(object_id, alive, wakers.skip(1)).1;
                &&& again[0] is Placeholder
                &&& forall|i: int| 0 < i < again.len() ==> #[trigger] again[i] == GetResult::Pending
            }
        }),
{
    lemma_all_wait(cache, object_id, alive, wakers);
    let (after, answers) = cache.called_by_all(object_id, alive, wakers);
    let owner = PlaceholderOwner { object_id, sequence: cache.next() };
    lemma_all_find(after.committed(owner, node), object_id, node, wakers.skip(1));
    let dropped = after.abandoned(owner);
    if wakers.len() > 1 {
        assert forall|sequence: u64| #[trigger] dropped.waiting.contains_key(sequence) implies 0
            < sequence <= dropped.placeholders by {
            assert(cache.waiting.contains_key(sequence));
        }
        lemma_all_wait(dropped, object_id, alive, wakers.skip(1));
    }
}

/// What happens to one object leaves what callers find for another as it was.
pub proof fn lemma_other_objects_are_left_alone<W>(
    cache: CacheView<W>,
    object_id: u64,
    other: u64,
    alive: bool,
)
    requires
        cache.wf(),
        cache.placeholders < u64::MAX,
        other != object_id,
        cache.entries.contains_key(other) ==> (cache.entries[other] matches CacheEntry::Placeholder(
            sequence,
        ) ==> sequence <= cache.placeholders),
    ensures
        cache.reserved(object_id).find(other, alive) == cache.find(other, alive),
{
}

/// A caller finds a node exactly if it is in the cache and can still be used, and a placeholder exactly if its owner
/// may still fill it.
pub proof fn lemma_what_is_there_is_found<W>(
    cache: CacheView<W>,
    object_id: u64,
    alive: bool,
    node: WeakNode,
    sequence: u64,
)
    ensures
        cache.find(object_id, alive) == Found::Node(node) <==> alive && cache.entries.contains_key(object_id)
            && cache.entries[object_id] == CacheEntry::Node(node),
        cache.find(object_id, alive) == Found::Placeholder(sequence) <==> cache.entries.contains_key(
            object_id,
        ) && cache.entries[object_id] == CacheEntry::Placeholder(sequence) && cache.waiting.contains_key(
            sequence,
        ),
        !cache.entries.contains_key(object_id) ==> cache.find(object_id, alive) is Vacant,
{
}

/// A caller that finds the node gets that node, and the cache stays as it is.  Otherwise it waits if somebody else
/// loads the node, and if not it is the one to load it.
pub proof fn lemma_callers_get_load_or_wait<W>(
    cache: CacheView<W>,
    object_id: u64,
    alive: bool,
    ticket: WaitTicket,
    waker: W,
    node: WeakNode,
)
    requires
        cache.placeholders < u64::MAX,
    ensures
        ({
            let (after, answer) = cache.called(object_id, alive, ticket, waker);
            &&& answer == GetResult::Node(node) <==> alive && cache.entries.contains_key(object_id)
                && cache.entries[object_id] == CacheEntry::Node(node)
            &&& answer is Node ==> after == cache
            &&& answer is Pending ==> after.entries == cache.entries && after.placeholders
                == cache.placeholders
            &&& answer matches GetResult::Placeholder(owner) ==> owner.object_id == object_id
                && owner.sequence == cache.placeholders + 1 && after.placeholders == cache.placeholders + 1
                && after.entries == cache.entries.insert(
                object_id,
                CacheEntry::Placeholder(owner.sequence),
            ) && after.waiting.contains_key(owner.sequence) && after.waiting[owner.sequence].len() == 0
        }),
{
}

/// A caller that waits again for the same placeholder takes its old place, and one that comes anew the last; those
/// that wait for other placeholders are not touched.
pub proof fn lemma_each_caller_waits_once<W>(
    cache: CacheView<W>,
    sequence: u64,
    ticket: WaitTicket,
    waker: W,
    other: u64,
)
    requires
        cache.waiting.contains_key(sequence),
        sequence == ticket.sequence ==> ticket.index < cache.waiting[sequence].len(),
    ensures
        ({
            let after = cache.with_waiter(sequence, ticket, waker);
            let before = cache.waiting[sequence];
            let now = after.waiting[sequence];
            &&& sequence == ticket.sequence ==> now.len() == before.len() && now[ticket.index as int] == waker
                && forall|i: int|
                0 <= i < now.len() && i != ticket.index ==> #[trigger] now[i] == before[i]
            &&& sequence != ticket.sequence ==> now.len() == before.len() + 1 && now.last() == waker
                && forall|i: int| 0 <= i < before.len() ==> #[trigger] now[i] == before[i]
            &&& other != sequence ==> (after.waiting.contains_key(other) <==> cache.waiting.contains_key(
                other,
            )) && after.waiting[other] == cache.waiting[other]
            &&& after.entries == cache.entries
        }),
{
}

/// Committing a node, or giving up a placeholder, wakes those that waited for that placeholder, who wait no more; what
/// there is for other objects, and those that wait for other placeholders, stay.
pub proof fn lemma_placeholder_is_settled_alone<W>(
    cache: CacheView<W>,
    owner: PlaceholderOwner,
    node: WeakNode,
    other: u64,
)
    ensures
        cache.waiting.contains_key(owner.sequence) ==> cache.waiters(owner) == cache.waiting[owner.sequence],
        !cache.waiting.contains_key(owner.sequence) ==> cache.waiters(owner).len() == 0,
        cache.committed(owner, node).waiters(owner).len() == 0,
        cache.abandoned(owner).waiters(owner).len() == 0,
        !cache.abandoned(owner).entries.contains_key(owner.object_id),
        cache.committed(owner, node).entries.contains_key(owner.object_id),
        other != owner.object_id ==> (cache.committed(owner, node).entries.contains_key(other)
            <==> cache.entries.contains_key(other)) && cache.committed(owner, node).entries[other]
            == cache.entries[other],
        other != owner.object_id ==> (cache.abandoned(owner).entries.contains_key(other)
            <==> cache.entries.contains_key(other)) && cache.abandoned(owner).entries[other]
            == cache.entries[other],
        other != owner.sequence ==> (cache.committed(owner, node).waiting.contains_key(other)
            <==> cache.waiting.contains_key(other)) && cache.committed(owner, node).waiting[other]
            == cache.waiting[other],
        other != owner.sequence ==> (cache.abandoned(owner).waiting.contains_key(other)
            <==> cache.waiting.contains_key(other)) && cache.abandoned(owner).waiting[other]
            == cache.waiting[other],
        cache.committed(owner, node).placeholders == cache.placeholders,
        cache.abandoned(owner).placeholders == cache.placeholders,
{
}

/// Removing a node removes it only if it is still the one in the cache: another node that took its place, or a
/// placeholder, stays, and so does everything else.
pub proof fn lemma_only_that_node_is_removed<W>(
    cache: CacheView<W>,
    object_id: u64,
    node: WeakNode,
    address: u64,
    other: u64,
)
    ensures
        ({
            let after = cache.without_node(object_id, address);
            &&& cache.entries.contains_key(object_id) && cache.entries[object_id] == CacheEntry::Node(node)
                ==> (after.entries.contains_key(object_id) <==> node.node != address)
            &&& cache.entries.contains_key(object_id) && cache.entries[object_id] is Placeholder
                ==> after.entries.contains_key(object_id)
            &&& other != object_id ==> (after.entries.contains_key(other) <==> cache.entries.contains_key(
                other,
            ))
            &&& after.entries.contains_key(other) ==> after.entries[other] == cache.entries[other]
            &&& after.waiting == cache.waiting
            &&& after.placeholders == cache.placeholders
        }),
{
}

/// Going from file to file passes over nothing but what is no file, and comes to no file twice.
pub proof fn lemma_files_are_visited_in_order<W>(
    cache: CacheView<W>,
    last: Option<u64>,
    id: u64,
    node: WeakNode,
    other: u64,
)
    requires
        cache.is_next_file(last, id),
    ensures
        cache.entries.contains_key(id),
        cache.entries[id] matches CacheEntry::Node(file) && file.is_file,
        last matches Some(last) ==> last < id,
        cache.entries.contains_key(other) && cache.entries[other] == CacheEntry::Node(node) && node.is_file
            && (last matches Some(last) ==> last < other) ==> id <= other,
        !cache.is_file_after(Some(id), id),
{
    if cache.entries.contains_key(other) && cache.entries[other] == CacheEntry::Node(node) && node.is_file && (
    last matches Some(last) ==> last < other) {
        assert(cache.is_file_after(last, other));
    }
}

/// A node that is wrapped and closed again is as often open as it was, and still the same object; it was opened and closed as
/// its kind of node is.
pub proof fn lemma_closing_gives_back_what_opening_took<N: FxNode>(
    node: N,
    opened: OpenedNode<N>,
    left: N,
    closed: N::Closed,
)
    requires
        opened.wraps(node),
        opened.leaves(left, closed),
    ensures
        left.open_counts() == node.open_counts(),
        left.spec_object_id() == node.spec_object_id(),
        opened.0.open_counts() == node.open_counts() + 1,
        opened.0.is_opened(&node),
        left.is_closed(&opened.0, &closed),
{
}

/// A ticket is one that was given out: for a placeholder that there was, and a place among those that wait for it.
pub proof fn lemma_tickets_are_given_out<W>(cache: CacheView<W>, ticket: WaitTicket)
    ensures
        ticket.sequence > cache.placeholders ==> !cache.is_ticket(ticket),
        cache.waiting.contains_key(ticket.sequence) && ticket.index >= cache.waiting[ticket.sequence].len()
            ==> !cache.is_ticket(ticket),
        ticket.sequence <= cache.placeholders && !cache.waiting.contains_key(ticket.sequence)
            ==> cache.is_ticket(ticket),
        ticket.sequence <= cache.placeholders && cache.waiting.contains_key(ticket.sequence) && ticket.index
            < cache.waiting[ticket.sequence].len() ==> cache.is_ticket(ticket),
{
}

} // verus!
