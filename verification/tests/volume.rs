use fxfs::errors::FxfsError;
use fxfs::file::{CloseAction, FileHandle, FxFile};
use fxfs::node::{FxNode, GetResult, OpenedNode, WaitTicket, WeakNode};
use fxfs::object_record::ObjectDescriptor;
use fxfs::refault::RefaultTrackerInner;
use fxfs::volume::{
    filesystem_name, flushed, info_to_filesystem_info, maybe_purge_file, open_for_flush,
    plan_terminate, profile_to_replay, project_id_call, project_id_reply, project_info,
    BackgroundEvent, BackgroundWork, BytesAndNodes, FxVolume, Info, MemoryPressureConfig,
    MemoryPressureLevel, MemoryPressureLevelConfig, NodeLoad, NodeToLoad, ProjectIdAnswer,
    ProjectIdCall, ProjectIdReply, ProjectIdRequest, TerminatePlan, BASE_READ_AHEAD_SIZE,
    DIRENT_CACHE_LIMIT, MAX_READ_AHEAD_SIZE,
};

#[test]
fn test_read_ahead_sizes() {
    let config = MemoryPressureConfig::default();
    assert!(config.mem_normal.read_ahead_size % BASE_READ_AHEAD_SIZE == 0);
    assert_eq!(config.mem_normal.read_ahead_size, MAX_READ_AHEAD_SIZE);

    assert!(config.mem_warning.read_ahead_size % BASE_READ_AHEAD_SIZE == 0);

    assert_eq!(config.mem_critical.read_ahead_size, BASE_READ_AHEAD_SIZE);
}

#[test]
fn test_refault_tracker() {
    fn get_stats(tracker: &RefaultTrackerInner) -> (u64, u64, [u64; 8]) {
        (tracker.count, tracker.bytes, tracker.histogram)
    }

    let mut refault_tracker = RefaultTrackerInner::default();
    refault_tracker.record_refault(10, 1);
    assert_eq!(get_stats(&refault_tracker), (1, 10, [1, 0, 0, 0, 0, 0, 0, 0]));
    refault_tracker.record_refault(10, 1);
    assert_eq!(get_stats(&refault_tracker), (2, 20, [2, 0, 0, 0, 0, 0, 0, 0]));
    refault_tracker.record_refault(10, 2);
    assert_eq!(get_stats(&refault_tracker), (3, 30, [1, 1, 0, 0, 0, 0, 0, 0]));
    refault_tracker.record_refault(10, 3);
    assert_eq!(get_stats(&refault_tracker), (4, 40, [1, 1, 0, 0, 0, 0, 0, 0]));
    refault_tracker.record_refault(10, 4);
    assert_eq!(get_stats(&refault_tracker), (5, 50, [1, 0, 1, 0, 0, 0, 0, 0]));

    let mut refault_tracker = RefaultTrackerInner::default();
    // The refault-tracker should see every chunk counter increase but it's possible they could
    // arrive out of order. The operations wrap on overflow so it should eventually become
    // consistent.
    refault_tracker.record_refault(10, 2);
    assert_eq!(get_stats(&refault_tracker), (1, 10, [u64::MAX, 1, 0, 0, 0, 0, 0, 0]));
    refault_tracker.record_refault(10, 1);
    assert_eq!(get_stats(&refault_tracker), (2, 20, [0, 1, 0, 0, 0, 0, 0, 0]));
    refault_tracker.record_refault(10, 4);
    assert_eq!(get_stats(&refault_tracker), (3, 30, [0, 0, 1, 0, 0, 0, 0, 0]));
    refault_tracker.record_refault(10, 3);
    assert_eq!(get_stats(&refault_tracker), (4, 40, [0, 0, 1, 0, 0, 0, 0, 0]));
}

#[test]
fn a_chunk_ends_up_in_the_bucket_of_its_last_count() {
    let mut tracker = RefaultTrackerInner::default();
    for count in 1..=255u8 {
        tracker.record_refault(1, count);
        let mut expected = [0; 8];
        expected[count.ilog2() as usize] = 1;
        assert_eq!(tracker.histogram, expected);
    }
    assert_eq!(tracker.count(), 255);
    assert_eq!(tracker.bytes(), 255);
}

#[test]
fn default_configuration() {
    let config = MemoryPressureConfig::default();
    assert_eq!(config.mem_normal, MemoryPressureLevelConfig::default());
    assert_eq!(config.mem_normal.background_task_period, 20_000);
    assert_eq!(config.mem_normal.background_task_initial_delay, 70_000);
    assert_eq!(config.mem_normal.cache_size_limit, DIRENT_CACHE_LIMIT);
    assert_eq!(config.for_level(&MemoryPressureLevel::Warning).read_ahead_size, 65536);
    assert_eq!(config.for_level(&MemoryPressureLevel::Warning).cache_size_limit, 100);
    assert_eq!(config.for_level(&MemoryPressureLevel::Critical).background_task_period, 1500);
}

#[test]
fn background_task_reacts_to_memory_pressure() {
    let config = MemoryPressureConfig::default();
    let mut volume: FxVolume<()> = FxVolume::new(1);
    assert_eq!(volume.read_ahead_size(), MAX_READ_AHEAD_SIZE);
    assert_eq!(volume.start_background_task(config), Some(70_000));
    // It is already running.
    assert_eq!(volume.start_background_task(config), None);

    assert_eq!(
        volume.background_task(BackgroundEvent::Timer),
        BackgroundWork {
            terminate: false,
            flush: true,
            purge_layer_files: false,
            cache_limit: None,
            timer: Some(20_000),
        }
    );
    assert_eq!(
        volume.background_task(BackgroundEvent::Level(MemoryPressureLevel::Warning)),
        BackgroundWork {
            terminate: false,
            flush: false,
            purge_layer_files: true,
            cache_limit: Some(100),
            timer: Some(5_000),
        }
    );
    assert_eq!(volume.read_ahead_size(), 2 * BASE_READ_AHEAD_SIZE);
    assert_eq!(
        volume.background_task(BackgroundEvent::Timer),
        BackgroundWork {
            terminate: false,
            flush: true,
            purge_layer_files: true,
            cache_limit: None,
            timer: Some(5_000),
        }
    );
    assert_eq!(
        volume.background_task(BackgroundEvent::Level(MemoryPressureLevel::Critical)),
        BackgroundWork {
            terminate: false,
            flush: true,
            purge_layer_files: true,
            cache_limit: Some(20),
            timer: Some(1_500),
        }
    );
    assert_eq!(volume.read_ahead_size(), BASE_READ_AHEAD_SIZE);
    // The same level again changes no setting.
    assert_eq!(
        volume.background_task(BackgroundEvent::Level(MemoryPressureLevel::Critical)),
        BackgroundWork {
            terminate: false,
            flush: true,
            purge_layer_files: true,
            cache_limit: None,
            timer: None,
        }
    );
    assert!(volume.background_task(BackgroundEvent::Terminate).terminate);
    assert!(volume.background_task.is_none());
}

#[test]
fn nodes_are_loaded_once() {
    let root = WeakNode { node: 1, is_file: false };
    let mut volume: FxVolume<u32> = FxVolume::new_with_root(3, 2, root, 0);
    assert_eq!(volume.id(), 3);
    let mut ticket = WaitTicket::new();
    match volume.get_or_load_node(2, &ObjectDescriptor::Directory, &mut ticket, 0, true) {
        NodeLoad::Node(node) => assert_eq!(node, root),
        other => panic!("Unexpected {other:?}"),
    }
    let owner = match volume.get_or_load_node(9, &ObjectDescriptor::File, &mut ticket, 0, true) {
        NodeLoad::Load(owner, NodeToLoad::File) => owner,
        other => panic!("Unexpected {other:?}"),
    };
    assert!(matches!(
        volume.get_or_load_node(9, &ObjectDescriptor::File, &mut ticket, 5, true),
        NodeLoad::Wait
    ));
    let file = WeakNode { node: 9, is_file: true };
    assert_eq!(volume.cache.commit(owner, 9, file), vec![5]);
    assert_eq!(volume.cache().next_file(None), Some((9, file)));
    // An object that is no node leaves no placeholder behind.
    assert!(matches!(
        volume.get_or_load_node(10, &ObjectDescriptor::Volume, &mut ticket, 5, true),
        NodeLoad::Inconsistent
    ));
    assert!(matches!(
        volume.cache.get_or_reserve(10, &mut WaitTicket::new(), 5, true),
        GetResult::Placeholder(_)
    ));
    assert!(matches!(
        volume.get_or_load_node(11, &ObjectDescriptor::Symlink, &mut ticket, 5, true),
        NodeLoad::Load(_, NodeToLoad::Symlink)
    ));
}

fn handle(needs_flush: bool) -> FileHandle {
    FileHandle { object_id: 42, block_size: 4096, verified: false, needs_flush }
}

#[test]
fn deleted_files_are_purged_unless_they_are_open() {
    let (none, purge) = maybe_purge_file(None);
    assert!(none.is_none());
    assert!(purge);

    let (file, purge) = maybe_purge_file(Some(FxFile::new(handle(false))));
    assert!(purge);
    assert!(file.unwrap().into_opened_node().is_none());

    let node = FxFile::new(handle(false)).into_opened_node().unwrap();
    let (file, purge) = maybe_purge_file(Some(node.take()));
    assert!(!purge);
    let (_, action) = OpenedNode(file.unwrap()).close();
    assert!(action.queue_tombstone);
}

#[test]
fn the_last_flush_leaves_files_clean() {
    let node = open_for_flush(FxFile::new(handle(true))).unwrap();
    let (file, action, dropped) = flushed(node, false);
    assert_eq!(
        action,
        CloseAction { take_reference: true, drop_reference: false, queue_tombstone: false }
    );
    assert!(!dropped);
    assert!(file.load_state().is_dirty());

    let node = open_for_flush(file).unwrap();
    let (file, action, dropped) = flushed(node, true);
    assert_eq!(
        action,
        CloseAction { take_reference: false, drop_reference: false, queue_tombstone: false }
    );
    assert!(dropped);
    assert!(!file.load_state().is_dirty());
    assert_eq!(file.object_id(), 42);

    let (file, _) = maybe_purge_file(Some(file));
    assert!(open_for_flush(file.unwrap()).is_none());
}

#[test]
fn terminating_a_volume() {
    assert_eq!(
        plan_terminate(true, true, true),
        TerminatePlan { lock_read_only: true, flush: false, lock: false, sync: false }
    );
    assert_eq!(
        plan_terminate(true, false, false),
        TerminatePlan { lock_read_only: false, flush: false, lock: false, sync: false }
    );
    assert_eq!(
        plan_terminate(false, true, true),
        TerminatePlan { lock_read_only: false, flush: true, lock: true, sync: true }
    );
    assert_eq!(
        plan_terminate(false, false, false),
        TerminatePlan { lock_read_only: false, flush: true, lock: false, sync: true }
    );
}

#[test]
fn profiles_are_files() {
    assert_eq!(profile_to_replay(None), Ok(None));
    assert_eq!(profile_to_replay(Some((5, ObjectDescriptor::File))), Ok(Some(5)));
    assert_eq!(
        profile_to_replay(Some((5, ObjectDescriptor::Directory))),
        Err(FxfsError::Inconsistent)
    );
}

#[test]
fn project_requests() {
    assert_eq!(
        project_id_call(&ProjectIdRequest::List { token: None }),
        ProjectIdCall::ListProjects { start_id: 0, max_entries: 8184 }
    );
    assert_eq!(
        project_id_call(&ProjectIdRequest::List { token: Some(7) }),
        ProjectIdCall::ListProjects { start_id: 7, max_entries: 8184 }
    );
    assert_eq!(
        project_id_call(&ProjectIdRequest::SetLimit { project_id: 1, bytes: 2, nodes: 3 }),
        ProjectIdCall::SetProjectLimit { project_id: 1, bytes: 2, nodes: 3 }
    );
    assert_eq!(
        project_id_call(&ProjectIdRequest::ClearForNode { node_id: 4 }),
        ProjectIdCall::ClearProjectForNode { node_id: 4 }
    );

    let some = BytesAndNodes { bytes: 10, nodes: 2 };
    let unlimited = BytesAndNodes { bytes: u64::MAX, nodes: u64::MAX };
    let nothing = BytesAndNodes { bytes: 0, nodes: 0 };
    assert_eq!(project_info(None, None), Err(FxfsError::NotFound));
    assert_eq!(project_info(Some(some), None), Ok((some, nothing)));
    assert_eq!(project_info(None, Some(some)), Ok((unlimited, some)));
    assert!(matches!(
        project_id_reply(Ok(ProjectIdAnswer::Info(None, None))),
        ProjectIdReply::Failed(FxfsError::NotFound)
    ));
    match project_id_reply(Ok(ProjectIdAnswer::Projects(vec![1, 2], Some(3)))) {
        ProjectIdReply::Projects(projects, Some(3)) => assert_eq!(projects, vec![1, 2]),
        other => panic!("Unexpected {other:?}"),
    }
    assert!(matches!(
        project_id_reply(Err(FxfsError::Inconsistent)),
        ProjectIdReply::Failed(FxfsError::Inconsistent)
    ));
}

#[test]
fn filesystem_information() {
    let info = info_to_filesystem_info(
        Info { total_bytes: 1000, used_bytes: 10 },
        4096,
        7,
        99,
        255,
        0x1234,
    );
    assert_eq!(info.total_bytes, 1000);
    assert_eq!(info.used_bytes, 10);
    assert_eq!(info.total_nodes, i64::MAX as u64);
    assert_eq!(info.used_nodes, 7);
    assert_eq!(info.fs_id, 99);
    assert_eq!(info.block_size, 4096);
    assert_eq!(info.max_filename_size, 255);
    assert_eq!(info.fs_type, 0x1234);
    let name = filesystem_name();
    assert_eq!(name[..5], [b'f' as i8, b'x' as i8, b'f' as i8, b's' as i8, 0]);
    assert_eq!(name.len(), 32);
}
