use fxfs::node::{CacheEntry, GetResult, NodeCache, PlaceholderOwner, WaitTicket, WeakNode};

const WAKER: u32 = 0;

fn directory(node: u64) -> WeakNode {
    WeakNode { node, is_file: false }
}

fn file(node: u64) -> WeakNode {
    WeakNode { node, is_file: true }
}

fn reserve(cache: &mut NodeCache<u32>, object_id: u64, alive: bool) -> PlaceholderOwner {
    match cache.get_or_reserve(object_id, &mut WaitTicket::new(), WAKER, alive) {
        GetResult::Placeholder(owner) => owner,
        other => panic!("Unexpected {other:?}"),
    }
}

fn commit(cache: &mut NodeCache<u32>, owner: PlaceholderOwner, node: WeakNode) -> Vec<u32> {
    let object_id = owner.object_id;
    cache.commit(owner, object_id, node)
}

#[test]
fn test_drop_placeholder() {
    let mut cache = NodeCache::<u32>::new();
    let object_id = 0u64;
    let owner = reserve(&mut cache, object_id, true);
    assert_eq!(cache.drop_placeholder(owner), Vec::<u32>::new());
    reserve(&mut cache, object_id, true);
}

#[test]
fn node_test_simple() {
    let mut cache = NodeCache::<u32>::new();
    let object_id = 0u64;
    let node = directory(100);
    let owner = reserve(&mut cache, object_id, true);
    assert_eq!(commit(&mut cache, owner, node), Vec::<u32>::new());
    match cache.get_or_reserve(object_id, &mut WaitTicket::new(), WAKER, true) {
        GetResult::Node(n) => assert_eq!(n, node),
        other => panic!("No node found: {other:?}"),
    }
    // The node is dropped.
    cache.remove(object_id, 100);
    reserve(&mut cache, object_id, true);
}

#[test]
fn test_subsequent_callers_block() {
    let mut cache = NodeCache::<u32>::new();
    let object_id = 0u64;
    let node = directory(100);
    let mut writes_to_cache = 0;
    let mut reads_from_cache = 0;
    let mut owner = None;
    let mut tickets = [WaitTicket::new(); 10];
    for caller in 0..10u32 {
        match cache.get_or_reserve(object_id, &mut tickets[caller as usize], caller, true) {
            GetResult::Placeholder(p) => {
                writes_to_cache += 1;
                owner = Some(p);
            }
            GetResult::Pending => {}
            GetResult::Node(_) => panic!("Unexpected node"),
        }
    }
    let woken = commit(&mut cache, owner.unwrap(), node);
    assert_eq!(woken, (1..10u32).collect::<Vec<_>>());
    for caller in woken {
        match cache.get_or_reserve(object_id, &mut tickets[caller as usize], caller, true) {
            GetResult::Node(n) => {
                reads_from_cache += 1;
                assert_eq!(n, node);
            }
            other => panic!("Unexpected {other:?}"),
        }
    }
    assert_eq!(writes_to_cache, 1);
    assert_eq!(reads_from_cache, 9);
}

#[test]
fn test_multiple_nodes() {
    const NUM_OBJECTS: usize = 5;
    const TASKS_PER_OBJECT: usize = 4;

    let mut cache = NodeCache::<u32>::new();
    let mut writes = vec![0u64; NUM_OBJECTS];
    let mut reads = vec![0u64; NUM_OBJECTS];
    let mut owners = Vec::new();
    let mut waiting = Vec::new();
    for task in 0..TASKS_PER_OBJECT {
        for object_id in 0..NUM_OBJECTS {
            let waker = (task * NUM_OBJECTS + object_id) as u32;
            let mut ticket = WaitTicket::new();
            match cache.get_or_reserve(object_id as u64, &mut ticket, waker, true) {
                GetResult::Placeholder(p) => {
                    writes[object_id] += 1;
                    owners.push(p);
                }
                GetResult::Pending => waiting.push((object_id, ticket, waker)),
                GetResult::Node(_) => panic!("Unexpected node"),
            }
        }
    }
    for owner in owners {
        let node = directory(owner.object_id);
        commit(&mut cache, owner, node);
    }
    for (object_id, mut ticket, waker) in waiting {
        match cache.get_or_reserve(object_id as u64, &mut ticket, waker, true) {
            GetResult::Node(n) => {
                assert_eq!(n.node, object_id as u64);
                reads[object_id] += 1;
            }
            other => panic!("Unexpected {other:?}"),
        }
    }
    assert_eq!(writes, vec![1u64; NUM_OBJECTS]);
    assert_eq!(reads, vec![TASKS_PER_OBJECT as u64 - 1; NUM_OBJECTS]);
}

#[test]
fn a_caller_that_polls_again_keeps_its_place() {
    let mut cache = NodeCache::<u32>::new();
    let owner = reserve(&mut cache, 7, true);
    let mut first = WaitTicket::new();
    let mut second = WaitTicket::new();
    assert_eq!(cache.get_or_reserve(7, &mut first, 1, true), GetResult::Pending);
    assert_eq!(cache.get_or_reserve(7, &mut second, 2, true), GetResult::Pending);
    assert_eq!(cache.get_or_reserve(7, &mut first, 3, true), GetResult::Pending);
    assert_eq!(first, WaitTicket { sequence: 1, index: 0 });
    assert_eq!(cache.drop_placeholder(owner), vec![3, 2]);
    // The next caller gets the placeholder, and the others wait for it in its place.
    let owner = cache.get_or_reserve(7, &mut second, 2, true).placeholder().unwrap();
    assert_eq!(cache.get_or_reserve(7, &mut first, 3, true), GetResult::Pending);
    assert_eq!(first, WaitTicket { sequence: 2, index: 0 });
    assert_eq!(commit(&mut cache, owner, file(5)), vec![3]);
}

#[test]
fn a_dead_node_is_replaced() {
    let mut cache = NodeCache::<u32>::new();
    let owner = reserve(&mut cache, 7, true);
    commit(&mut cache, owner, file(1));
    let owner = reserve(&mut cache, 7, false);
    commit(&mut cache, owner, file(2));
    // The first node is dropped only now; it does not take the second with it.
    cache.remove(7, 1);
    assert_eq!(cache.get(7), Some(CacheEntry::Node(file(2))));
    cache.remove(7, 2);
    assert_eq!(cache.get(7), None);
}

#[test]
fn files_are_visited_in_order() {
    let mut cache = NodeCache::<u32>::new();
    for (object_id, node) in [(9, file(90)), (3, file(30)), (5, directory(50)), (7, file(70))] {
        let owner = reserve(&mut cache, object_id, true);
        commit(&mut cache, owner, node);
    }
    let _placeholder = reserve(&mut cache, 4, true);
    assert_eq!(cache.next_file(None), Some((3, file(30))));
    assert_eq!(cache.next_file(Some(3)), Some((7, file(70))));
    assert_eq!(cache.next_file(Some(7)), Some((9, file(90))));
    assert_eq!(cache.next_file(Some(9)), None);
    assert_eq!(
        cache.terminate(),
        vec![
            (3, CacheEntry::Node(file(30))),
            (4, CacheEntry::Placeholder(5)),
            (5, CacheEntry::Node(directory(50))),
            (7, CacheEntry::Node(file(70))),
            (9, CacheEntry::Node(file(90))),
        ]
    );
    assert_eq!(cache.next_file(None), None);
}
