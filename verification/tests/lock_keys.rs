use fxfs::lock_keys::{LockKey, LockKeys};

fn key(id: u64) -> LockKey {
    LockKey::flush(id)
}

fn lock_keys(ids: &[u64]) -> LockKeys {
    match ids {
        [] => LockKeys::Empty,
        [id] => LockKeys::Inline(key(*id)),
        _ => LockKeys::Vec(ids.iter().map(|id| key(*id)).collect()),
    }
}

// The keys, storage method, and capacity must all match.
fn assert_lock_keys_equal(value: &LockKeys, expected: &LockKeys) {
    match (value, expected) {
        (LockKeys::Empty, LockKeys::Empty) => {}
        (LockKeys::Inline(key1), LockKeys::Inline(key2)) => {
            if key1 != key2 {
                panic!("{key1:?} != {key2:?}");
            }
        }
        (LockKeys::Vec(vec1), LockKeys::Vec(vec2)) => {
            if vec1 != vec2 {
                panic!("{vec1:?} != {vec2:?}");
            }
            if vec1.capacity() != vec2.capacity() {
                panic!(
                    "LockKeys have different capacity: {} != {}",
                    vec1.capacity(),
                    vec2.capacity()
                );
            }
        }
        (_, _) => panic!("{value:?} != {expected:?}"),
    }
}

// Only the keys must match. Storage method and capacity don't matter.
fn assert_lock_keys_equivalent(value: &LockKeys, expected: &LockKeys) {
    let value: Vec<_> = value.iter().collect();
    let expected: Vec<_> = expected.iter().collect();
    assert_eq!(value, expected);
}

#[test]
fn test_lock_keys_with_capacity() {
    assert_lock_keys_equal(&LockKeys::with_capacity(0), &LockKeys::Empty);
    assert_lock_keys_equal(&LockKeys::with_capacity(1), &LockKeys::Empty);
    assert_lock_keys_equal(&LockKeys::with_capacity(2), &LockKeys::Vec(Vec::with_capacity(2)));
}

#[test]
fn test_lock_keys_len() {
    assert_eq!(lock_keys(&[]).len(), 0);
    assert_eq!(lock_keys(&[1]).len(), 1);
    assert_eq!(lock_keys(&[1, 2]).len(), 2);
}

#[test]
fn test_lock_keys_contains() {
    assert_eq!(lock_keys(&[]).contains(&key(1)), false);
    assert_eq!(lock_keys(&[1]).contains(&key(1)), true);
    assert_eq!(lock_keys(&[1]).contains(&key(2)), false);
    assert_eq!(lock_keys(&[1, 2]).contains(&key(1)), true);
    assert_eq!(lock_keys(&[1, 2]).contains(&key(2)), true);
    assert_eq!(lock_keys(&[1, 2]).contains(&key(3)), false);
}

#[test]
fn test_lock_keys_push() {
    let mut keys = lock_keys(&[]);
    keys.push(key(1));
    assert_lock_keys_equal(&keys, &LockKeys::Inline(key(1)));
    keys.push(key(2));
    assert_lock_keys_equal(&keys, &LockKeys::Vec(vec![key(1), key(2)]));
    keys.push(key(3));
    assert_lock_keys_equivalent(&keys, &LockKeys::Vec(vec![key(1), key(2), key(3)]));
}

#[test]
fn test_lock_keys_sort_unstable() {
    let mut keys = lock_keys(&[]);
    keys.sort_unstable();
    assert_lock_keys_equal(&keys, &lock_keys(&[]));

    let mut keys = lock_keys(&[1]);
    keys.sort_unstable();
    assert_lock_keys_equal(&keys, &lock_keys(&[1]));

    let mut keys = lock_keys(&[2, 1]);
    keys.sort_unstable();
    assert_lock_keys_equal(&keys, &lock_keys(&[1, 2]));
}

#[test]
fn test_lock_keys_dedup() {
    let mut keys = lock_keys(&[]);
    keys.dedup();
    assert_lock_keys_equal(&keys, &lock_keys(&[]));

    let mut keys = lock_keys(&[1]);
    keys.dedup();
    assert_lock_keys_equal(&keys, &lock_keys(&[1]));

    let mut keys = lock_keys(&[1, 1]);
    keys.dedup();
    assert_lock_keys_equivalent(&keys, &lock_keys(&[1]));
}

#[test]
fn test_lock_keys_truncate() {
    let mut keys = lock_keys(&[]);
    keys.truncate(5);
    assert_lock_keys_equal(&keys, &lock_keys(&[]));
    keys.truncate(0);
    assert_lock_keys_equal(&keys, &lock_keys(&[]));

    let mut keys = lock_keys(&[1]);
    keys.truncate(5);
    assert_lock_keys_equal(&keys, &lock_keys(&[1]));
    keys.truncate(0);
    assert_lock_keys_equal(&keys, &lock_keys(&[]));

    let mut keys = lock_keys(&[1, 2]);
    keys.truncate(5);
    assert_lock_keys_equal(&keys, &lock_keys(&[1, 2]));
    keys.truncate(1);
    // Although there's only 1 key after truncate the key is not stored inline.
    assert_lock_keys_equivalent(&keys, &lock_keys(&[1]));
}

#[test]
fn test_lock_keys_iter() {
    assert_eq!(lock_keys(&[]).iter().collect::<Vec<_>>(), Vec::<&LockKey>::new());
    assert_eq!(lock_keys(&[1]).iter().collect::<Vec<_>>(), vec![&key(1)]);
    assert_eq!(lock_keys(&[1, 2]).iter().collect::<Vec<_>>(), vec![&key(1), &key(2)]);
}

#[test]
fn keys_are_sorted_by_kind_and_then_by_their_fields() {
    let mut keys = LockKeys::Empty;
    keys.push(LockKey::object(1, 2));
    keys.push(LockKey::object_attribute(1, 2, 3));
    keys.push(LockKey::flush(7));
    keys.push(LockKey::object_attribute(1, 2, 1));
    keys.push(LockKey::flush(7));
    keys.sort_unstable();
    keys.dedup();
    assert_eq!(keys.len(), 4);
    assert_eq!(keys.get(0), LockKey::flush(7));
    for i in 1..keys.len() {
        assert!(keys.get(i - 1).is_before(&keys.get(i)));
        assert!(!keys.get(i).is_before(&keys.get(i - 1)));
    }
    assert_eq!(keys.duplicate().as_slice(), keys.as_slice());
}

#[test]
fn dedup_drops_only_neighbours() {
    let mut keys = lock_keys(&[1, 1, 2, 1]);
    keys.dedup();
    assert_eq!(keys.iter().collect::<Vec<_>>(), vec![&key(1), &key(2), &key(1)]);
}
