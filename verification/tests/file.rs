use fxfs::file::{
    allocation_end, fscrypt_wrapping_key_id, plan_backing_memory, CloseAction, FileHandle, FxFile,
    HashAlgorithm, LinkPlan, ObjectProperties, SelinuxContext, State, VerificationOptions, VmoFlags, VmoPlan, IS_DIRTY, IS_UNNAMED_TEMPORARY, MAX_OPEN_COUNTS,
    TO_BE_PURGED,
};
use fxfs::node::{FxNode, OpenedNode};
use fxfs::object_record::{
    FxfsKey, ObjectDescriptor, PosixAttributes, Timestamp, FSCRYPT_KEY_ID, VOLUME_DATA_KEY_ID,
};

fn handle(needs_flush: bool) -> FileHandle {
    FileHandle { object_id: 42, block_size: 4096, verified: false, needs_flush }
}

const NOTHING: CloseAction =
    CloseAction { take_reference: false, drop_reference: false, queue_tombstone: false };

#[test]
fn bits_of_the_state() {
    let state = State(3 | TO_BE_PURGED | IS_DIRTY);
    assert_eq!(state.open_count(), 3);
    assert!(state.to_be_purged());
    assert!(state.is_dirty());
    assert!(!state.is_temporarily_in_graveyard());
    assert!(!state.is_unnamed_temporary());
    assert!(!state.will_be_tombstoned());
    assert!(State(TO_BE_PURGED).will_be_tombstoned());
    assert!(State(IS_UNNAMED_TEMPORARY).is_unnamed_temporary());
    assert_eq!(State(MAX_OPEN_COUNTS).open_count(), MAX_OPEN_COUNTS);
    assert_eq!(State(TO_BE_PURGED).opened(), None);
    assert_eq!(State(IS_DIRTY).opened(), Some(State(IS_DIRTY + 1)));
}

#[test]
fn closing_files() {
    // Not the last open count.
    assert_eq!(State(2).closed(true), (State(1), NOTHING));
    assert_eq!(State(2 | TO_BE_PURGED).closed(true), (State(1 | TO_BE_PURGED), NOTHING));
    // The last one.
    assert_eq!(State(1).closed(false), (State(0), NOTHING));
    assert_eq!(
        State(1).closed(true),
        (State(IS_DIRTY), CloseAction { take_reference: true, ..NOTHING })
    );
    assert_eq!(State(1 | IS_DIRTY).closed(true), (State(IS_DIRTY), NOTHING));
    assert_eq!(
        State(1 | IS_DIRTY).closed(false),
        (State(0), CloseAction { drop_reference: true, ..NOTHING })
    );
    // The last one of a file that is deleted.
    assert_eq!(
        State(1 | TO_BE_PURGED).closed(true),
        (State(TO_BE_PURGED), CloseAction { queue_tombstone: true, ..NOTHING })
    );
    assert_eq!(
        State(1 | TO_BE_PURGED | IS_DIRTY).closed(true),
        (
            State(TO_BE_PURGED),
            CloseAction { take_reference: false, drop_reference: true, queue_tombstone: true }
        )
    );
}

#[test]
fn temporary_files_go_away_unless_they_are_linked() {
    let node = FxFile::new(handle(true)).open_as_temporary();
    assert_eq!(node.0.load_state().0, 1 | IS_UNNAMED_TEMPORARY);
    assert_eq!(node.0.plan_link(), LinkPlan::FromGraveyard);
    assert_eq!(node.0.link_count(1), 0);
    let (file, action) = node.close();
    assert!(action.queue_tombstone);
    assert!(file.into_opened_node().is_none());

    let mut node = FxFile::new(handle(false)).open_as_temporary();
    node.0.mark_as_permanent();
    assert_eq!(node.0.load_state(), State(1));
    assert_eq!(node.0.plan_link(), LinkPlan::Plain);
    assert_eq!(node.0.link_count(1), 1);
    let (file, action) = node.close();
    assert_eq!(action, NOTHING);
    assert!(file.into_opened_node().is_some());
}

#[test]
fn unlinked_files_cannot_be_linked_or_opened_again() {
    let mut file = FxFile::new(handle(false));
    assert!(file.increment_open_count());
    assert!(!file.mark_to_be_purged());
    assert_eq!(file.plan_link(), LinkPlan::NotFound);
    assert_eq!(file.link_count(1), 0);
    assert_eq!(file.link_count(2), 2);
    // It can be opened while it is open.
    let node = OpenedNode::new(file);
    let (file, action) = node.close();
    assert_eq!(action, NOTHING);
    let (mut file, action) = OpenedNode(file).close();
    assert!(action.queue_tombstone);
    assert!(!file.increment_open_count());

    let mut file = FxFile::new(handle(false));
    assert!(file.mark_to_be_purged());
    assert!(file.into_opened_node().is_none());

    // One that is marked is not opened anew, even if it is open.
    let mut file = FxFile::new(handle(false));
    assert!(file.increment_open_count());
    assert!(!file.mark_to_be_purged());
    assert!(file.into_opened_node().is_none());
}

#[test]
fn closing_undoes_opening() {
    let node = OpenedNode::new(FxFile::new(handle(false)));
    assert_eq!(node.0.load_state().open_count(), 1);
    let (file, action) = node.close();
    assert_eq!(action, NOTHING);
    assert_eq!(file.load_state().open_count(), 0);
    assert_eq!(file.object_id(), 42);
    // Taking a node keeps it open.
    let mut file = OpenedNode::new(file).take();
    assert_eq!(file.load_state().open_count(), 1);
    // Neither its parent nor shutting down changes that.
    file.set_parent(7);
    file.terminate();
    assert_eq!(file.load_state(), State(1));
    assert_eq!(file.object_id(), 42);
}

#[test]
fn cleaning_files() {
    let node = FxFile::new(handle(true)).into_opened_node().unwrap();
    let (mut file, action) = node.close();
    assert!(action.take_reference);
    assert!(file.force_clean());
    assert!(!file.force_clean());
    assert_eq!(file.load_state(), State(0));
    assert_eq!(file.handle().object_id, 42);
    assert_eq!(file.object_id(), 42);
    assert_eq!(file.get_block_size(), 4096);
    assert!(!file.is_verified_file());
    assert_eq!(file.object_descriptor(), ObjectDescriptor::File);
}

#[test]
fn memory_of_files() {
    let flags =
        |read, write, execute, private_clone| VmoFlags { read, write, execute, private_clone };
    assert_eq!(plan_backing_memory(&flags(true, false, true, false)), None);
    assert_eq!(
        plan_backing_memory(&flags(true, true, false, false)),
        Some(VmoPlan {
            read: true,
            write: true,
            set_property: false,
            resize: false,
            snapshot: false,
            resizable: false,
        })
    );
    assert_eq!(
        plan_backing_memory(&flags(true, false, false, true)),
        Some(VmoPlan {
            read: true,
            write: false,
            set_property: true,
            resize: false,
            snapshot: true,
            resizable: false,
        })
    );
    assert_eq!(
        plan_backing_memory(&flags(true, true, false, true)),
        Some(VmoPlan {
            read: true,
            write: true,
            set_property: true,
            resize: true,
            snapshot: true,
            resizable: true,
        })
    );
    assert_eq!(allocation_end(1, 2), Some(3));
    assert_eq!(allocation_end(u64::MAX, 1), None);
}

#[test]
fn wrapping_keys() {
    let key = |id| FxfsKey { wrapping_key_id: id, key: [0; 48] };
    let keys = vec![(VOLUME_DATA_KEY_ID, key(1)), (FSCRYPT_KEY_ID, key(2))];
    assert_eq!(fscrypt_wrapping_key_id(true, &keys), Some(2));
    assert_eq!(fscrypt_wrapping_key_id(false, &keys), None);
    assert_eq!(fscrypt_wrapping_key_id(true, &vec![(VOLUME_DATA_KEY_ID, key(1))]), None);
}

#[test]
fn attributes_of_files() {
    let mut file = FxFile::new(handle(false));
    let mut props = ObjectProperties {
        refs: 1,
        allocated_size: 8192,
        data_attribute_size: 5000,
        creation_time: Timestamp::from_nanos(1),
        modification_time: Timestamp::from_nanos(2),
        access_time: Timestamp::from_nanos(3),
        change_time: Timestamp::from_nanos(4),
        posix_attributes: None,
    };
    let attributes = file.get_attributes(&props, None, None, None);
    assert_eq!(attributes.protocol, ObjectDescriptor::File);
    assert!(attributes.abilities.read_bytes && attributes.abilities.update_attributes);
    assert!(attributes.options.is_none() && attributes.root_hash.is_none());
    assert_eq!(attributes.link_count, 1);
    assert_eq!(attributes.id, 42);
    assert_eq!(attributes.content_size, 5000);
    assert_eq!(attributes.storage_size, 8192);
    assert_eq!(
        [
            attributes.creation_time,
            attributes.modification_time,
            attributes.access_time,
            attributes.change_time
        ],
        [1, 2, 3, 4]
    );
    assert_eq!((attributes.mode, attributes.rdev), (None, None));
    assert!(!attributes.verity_enabled);
    // Files in the graveyard have no links.
    file.mark_to_be_purged();
    props.posix_attributes = Some(PosixAttributes { mode: 5, uid: 6, gid: 7, rdev: 8 });
    let attributes = file.get_attributes(
        &props,
        Some(9),
        Some(SelinuxContext::Data(vec![1])),
        Some((
            VerificationOptions { hash_algorithm: HashAlgorithm::Sha256, salt: vec![2] },
            vec![3],
        )),
    );
    assert!(matches!(attributes.selinux_context, Some(SelinuxContext::Data(data)) if data == [1]));
    assert_eq!(attributes.options.unwrap().salt, vec![2]);
    assert_eq!(attributes.root_hash, Some(vec![3]));
    assert_eq!(attributes.link_count, 0);
    assert_eq!(attributes.wrapping_key_id, Some(9));
    assert_eq!(
        (attributes.mode, attributes.uid, attributes.gid, attributes.rdev),
        (Some(5), Some(6), Some(7), Some(8))
    );
    props.refs = 2;
    assert_eq!(file.get_attributes(&props, None, None, None).link_count, 2);
}
