//! Volumes that the server has open: the nodes they cache, the work they do in the background, and what
//! they answer about projects and the filesystem.
use crate::errors::FxfsError;
use crate::file::{close_action, state_closed, CloseAction, FxFile, StateView, MAX_OPEN_COUNTS};
use crate::node::{
    CacheEntry, CacheView, Found, GetResult, NodeCache, OpenedNode, PlaceholderOwner, WaitTicket,
    WeakNode,
};
use crate::object_record::ObjectDescriptor;
use vstd::prelude::*;

verus! {

pub const DIRENT_CACHE_LIMIT: usize = 2000;

/// The smallest read-ahead size. All other read-ahead sizes should be a multiple of this read-ahead size.
/// Having this property allows for chunking metadata at this granularity, reduces the amount of
/// read-ahead that gets repeated between requests, and simplifies the implementation.
pub const BASE_READ_AHEAD_SIZE: u64 = 0x8000;

pub const MAX_READ_AHEAD_SIZE: u64 = 0x20000;

/// How much memory pressure there is.
#[derive(Clone, Copy, Debug, PartialEq, Eq, Structural)]
pub enum MemoryPressureLevel {
    Normal,
    Warning,
    Critical,
}

/// What a volume does at one level of memory pressure.  Times are in milliseconds.
#[derive(Clone, Copy, Debug, PartialEq, Eq, Structural)]
pub struct MemoryPressureLevelConfig {
    /// The period to wait between flushes, as well as perform other background maintenance tasks
    /// (e.g. purging caches).
    pub background_task_period: u64,
    /// The limit of cached nodes.
    pub cache_size_limit: usize,
    /// The initial delay before the background task runs. The background task has a longer initial
    /// delay to avoid running the task during boot.
    pub background_task_initial_delay: u64,
    /// The amount of read-ahead to do. The read-ahead size is reduced when under memory pressure.
    /// The kernel starts evicting pages when under memory pressure so over supplied pages are less
    /// likely to be used before being evicted.
    pub read_ahead_size: u64,
}

/// What a volume does at normal memory pressure unless it is told otherwise.
pub open spec fn default_normal() -> MemoryPressureLevelConfig {
    MemoryPressureLevelConfig {
        background_task_period: 20_000,
        cache_size_limit: DIRENT_CACHE_LIMIT,
        background_task_initial_delay: 70_000,
        read_ahead_size: MAX_READ_AHEAD_SIZE,
    }
}

impl Default for MemoryPressureLevelConfig {
    fn default() -> (config: Self)
        ensures
            config == default_normal(),
    {
        MemoryPressureLevelConfig {
            background_task_period: 20_000,
            cache_size_limit: DIRENT_CACHE_LIMIT,
            background_task_initial_delay: 70_000,
            read_ahead_size: MAX_READ_AHEAD_SIZE,
        }
    }
}

/// What a volume does at each level of memory pressure.
#[derive(Clone, Copy, Debug, PartialEq, Eq, Structural)]
pub struct MemoryPressureConfig {
    /// The configuration to use at [`MemoryPressureLevel::Normal`].
    pub mem_normal: MemoryPressureLevelConfig,
    /// The configuration to use at [`MemoryPressureLevel::Warning`].
    pub mem_warning: MemoryPressureLevelConfig,
    /// The configuration to use at [`MemoryPressureLevel::Critical`].
    pub mem_critical: MemoryPressureLevelConfig,
}

/// What a volume does unless it is told otherwise.
pub open spec fn default_config() -> MemoryPressureConfig {
    MemoryPressureConfig {
        mem_normal: default_normal(),
        mem_warning: MemoryPressureLevelConfig {
            background_task_period: 5_000,
            cache_size_limit: 100,
            background_task_initial_delay: 5_000,
            read_ahead_size: (2 * BASE_READ_AHEAD_SIZE) as u64,
        },
        mem_critical: MemoryPressureLevelConfig {
            background_task_period: 1_500,
            cache_size_limit: 20,
            background_task_initial_delay: 1_500,
            read_ahead_size: BASE_READ_AHEAD_SIZE,
        },
    }
}

impl Default for MemoryPressureConfig {
    fn default() -> (config: Self)
        ensures
            config == default_config(),
    {
        MemoryPressureConfig {
            mem_normal: MemoryPressureLevelConfig::default(),
            mem_warning: MemoryPressureLevelConfig {
                background_task_period: 5_000,
                cache_size_limit: 100,
                background_task_initial_delay: 5_000,
                read_ahead_size: BASE_READ_AHEAD_SIZE * 2,
            },
            mem_critical: MemoryPressureLevelConfig {
                background_task_period: 1_500,
                cache_size_limit: 20,
                background_task_initial_delay: 1_500,
                read_ahead_size: BASE_READ_AHEAD_SIZE,
            },
        }
    }
}

impl MemoryPressureConfig {
    /// What a volume does at `level`.
    pub open spec fn at(self, level: MemoryPressureLevel) -> MemoryPressureLevelConfig {
        match level {
            MemoryPressureLevel::Normal => self.mem_normal,
            MemoryPressureLevel::Warning => self.mem_warning,
            MemoryPressureLevel::Critical => self.mem_critical,
        }
    }

    pub fn for_level(&self, level: &MemoryPressureLevel) -> (config: &MemoryPressureLevelConfig)
        ensures
            *config == self.at(*level),
    {
        match level {
            MemoryPressureLevel::Normal => &self.mem_normal,
            MemoryPressureLevel::Warning => &self.mem_warning,
            MemoryPressureLevel::Critical => &self.mem_critical,
        }
    }
}

/// All read-ahead sizes are multiples of the smallest one, and more memory pressure never means more
/// read-ahead, a larger cache or a longer period.
pub proof fn lemma_pressure_reduces_use(level: MemoryPressureLevel)
    ensures
        ({
            let config = default_config().at(level);
            let normal = default_config().mem_normal;
            let critical = default_config().mem_critical;
            &&& config.read_ahead_size % BASE_READ_AHEAD_SIZE == 0
            &&& critical.read_ahead_size <= config.read_ahead_size <= normal.read_ahead_size
            &&& critical.cache_size_limit <= config.cache_size_limit <= normal.cache_size_limit
            &&& critical.background_task_period <= config.background_task_period
                <= normal.background_task_period
        }),
{
}

/// What wakes the background task.
#[derive(Clone, Copy, Debug, PartialEq, Eq, Structural)]
pub enum BackgroundEvent {
    /// The volume is being closed.
    Terminate,
    /// The memory pressure was reported.
    Level(MemoryPressureLevel),
    /// The timer went off.
    Timer,
}

/// What the background task does next.
#[derive(Clone, Copy, Debug, PartialEq, Eq, Structural)]
pub struct BackgroundWork {
    /// End the task; there is nothing else to do.
    pub terminate: bool,
    /// Flush all files and recycle stale entries of the dirent cache.
    pub flush: bool,
    /// Purge the data that the immutable layers cache.
    pub purge_layer_files: bool,
    /// The new limit of the dirent cache.
    pub cache_limit: Option<usize>,
    /// The time after which the timer goes off next, in milliseconds, unless it is left as it is.
    pub timer: Option<u64>,
}

/// The task that a volume does in the background.
#[derive(Clone, Copy, Debug, PartialEq, Eq, Structural)]
pub struct BackgroundTask {
    pub config: MemoryPressureConfig,
    pub level: MemoryPressureLevel,
}

impl BackgroundTask {
    /// The level of memory pressure after `event`.
    pub open spec fn level_after(self, event: BackgroundEvent) -> MemoryPressureLevel {
        match event {
            BackgroundEvent::Level(level) => level,
            _ => self.level,
        }
    }

    /// What is to be done about `event`.
    pub open spec fn work(self, event: BackgroundEvent) -> BackgroundWork {
        let after = self.config.at(self.level_after(event));
        let changed = self.level_after(event) != self.level;
        BackgroundWork {
            terminate: event is Terminate,
            flush: event is Timer || event == BackgroundEvent::Level(MemoryPressureLevel::Critical),
            purge_layer_files: event is Level || event is Timer && !(self.level is Normal),
            cache_limit: if changed {
                Some(after.cache_size_limit)
            } else {
                None
            },
            timer: if changed || event is Timer {
                Some(after.background_task_period)
            } else {
                None
            },
        }
    }
}

/// FxVolume represents an opened volume. It is also a (weak) cache for all opened Nodes within the
/// volume.
pub struct FxVolume<W> {
    pub cache: NodeCache<W>,
    /// Unique identifier of the filesystem that owns this volume.
    pub fs_id: u64,
    pub background_task: Option<BackgroundTask>,
    /// This is updated based on the memory-pressure level.
    pub read_ahead_size: u64,
}

impl<W> FxVolume<W> {
    pub fn new(fs_id: u64) -> (volume: Self)
        ensures
            volume.cache@.wf(),
            volume.cache@ == (CacheView::<W> {
                entries: Map::empty(),
                waiting: Map::empty(),
                placeholders: 0,
            }),
            volume.fs_id == fs_id,
            volume.background_task is None,
            volume.read_ahead_size == default_config().mem_normal.read_ahead_size,
    {
        FxVolume {
            cache: NodeCache::new(),
            fs_id,
            background_task: None,
            read_ahead_size: MemoryPressureConfig::default().mem_normal.read_ahead_size,
        }
    }

    /// Opens a volume whose root directory is `root`.
    pub fn new_with_root(fs_id: u64, root_object_id: u64, root: WeakNode, waker: W) -> (volume: Self)
        ensures
            volume.cache@.wf(),
            volume.cache@.entries == Map::<u64, CacheEntry>::empty().insert(
                root_object_id,
                CacheEntry::Node(root),
            ),
            volume.cache@.waiting == Map::<u64, Seq<W>>::empty(),
            volume.fs_id == fs_id,
            volume.background_task is None,
            volume.read_ahead_size == default_config().mem_normal.read_ahead_size,
    {
        let mut volume: FxVolume<W> = FxVolume::new(fs_id);
        let mut ticket = WaitTicket::new();
        let found = volume.cache.get_or_reserve(root_object_id, &mut ticket, waker, true);
        if let Some(owner) = found.placeholder() {
            let _ = volume.cache.commit(owner, root_object_id, root);
        }
        assert(volume.cache@.entries =~= Map::<u64, CacheEntry>::empty().insert(
            root_object_id,
            CacheEntry::Node(root),
        ));
        assert(volume.cache@.waiting =~= Map::<u64, Seq<W>>::empty());
        volume
    }

    pub fn cache(&self) -> (cache: &NodeCache<W>)
        ensures
            *cache == self.cache,
    {
        &self.cache
    }

    pub fn id(&self) -> (id: u64)
        ensures
            id == self.fs_id,
    {
        self.fs_id
    }

    /// Returns the current read-ahead size that should be used based on the current memory-pressure
    /// level.
    pub fn read_ahead_size(&self) -> (size: u64)
        ensures
            size == self.read_ahead_size,
    {
        self.read_ahead_size
    }

    /// Starts the background work task, unless it was started already.  Returns the time after which its
    /// timer goes off.
    ///
    /// The task will periodically scan all files and flush them to disk, and purge unused cached data.
    pub fn start_background_task(&mut self, config: MemoryPressureConfig) -> (delay: Option<u64>)
        ensures
            final(self).cache == old(self).cache,
            final(self).fs_id == old(self).fs_id,
            final(self).read_ahead_size == old(self).read_ahead_size,
            match old(self).background_task {
                Some(task) => {
                    &&& delay is None
                    &&& final(self).background_task == Some(task)
                },
                None => {
                    &&& delay == Some(config.mem_normal.background_task_initial_delay)
                    &&& final(self).background_task == Some(
                        BackgroundTask { config, level: MemoryPressureLevel::Normal },
                    )
                },
            },
    {
        if self.background_task.is_some() {
            return None;
        }
        // Default to the normal period until updates come from the level stream.
        let level = MemoryPressureLevel::Normal;
        self.background_task = Some(BackgroundTask { config, level });
        Some(config.for_level(&level).background_task_initial_delay)
    }

    /// Decides what the background task does about `event`.
    pub fn background_task(&mut self, event: BackgroundEvent) -> (work: BackgroundWork)
        requires
            old(self).background_task is Some,
        ensures
            final(self).cache == old(self).cache,
            final(self).fs_id == old(self).fs_id,
            ({
                let task = old(self).background_task->0;
                let level = task.level_after(event);
                &&& work == task.work(event)
                &&& final(self).read_ahead_size == (if level != task.level {
                    task.config.at(level).read_ahead_size
                } else {
                    old(self).read_ahead_size
                })
                &&& final(self).background_task == (if event is Terminate {
                    None
                } else {
                    Some(BackgroundTask { level, ..task })
                })
            }),
    {
        let mut work = BackgroundWork {
            terminate: false,
            flush: false,
            purge_layer_files: false,
            cache_limit: None,
            timer: None,
        };
        if let Some(task) = self.background_task {
            match event {
                BackgroundEvent::Terminate => {
                    work.terminate = true;
                    self.background_task = None;
                },
                BackgroundEvent::Level(new_level) => {
                    // At critical levels, it's okay to undertake expensive work immediately
                    // to reclaim memory.
                    work.flush = matches!(new_level, MemoryPressureLevel::Critical);
                    work.purge_layer_files = true;
                    if new_level != task.level {
                        let level_config = task.config.for_level(&new_level);
                        work.cache_limit = Some(level_config.cache_size_limit);
                        work.timer = Some(level_config.background_task_period);
                        self.read_ahead_size = level_config.read_ahead_size;
                        self.background_task = Some(
                            BackgroundTask { config: task.config, level: new_level },
                        );
                    }
                },
                BackgroundEvent::Timer => {
                    work.timer = Some(task.config.for_level(&task.level).background_task_period);
                    work.flush = true;
                    // Only purge layer file caches once we have elevated memory pressure.
                    work.purge_layer_files = !matches!(task.level, MemoryPressureLevel::Normal);
                },
            }
        }
        work
    }
}

/// After the level of memory pressure has changed, the read-ahead size, the limit of the cache and the
/// period are those of the new level; reporting the same level again changes none of them.
pub proof fn lemma_level_is_adopted(task: BackgroundTask, level: MemoryPressureLevel)
    ensures
        level != task.level ==> {
            let work = task.work(BackgroundEvent::Level(level));
            &&& work.cache_limit == Some(task.config.at(level).cache_size_limit)
            &&& work.timer == Some(task.config.at(level).background_task_period)
        },
        ({
            let after = BackgroundTask {
                level: task.level_after(BackgroundEvent::Level(level)),
                ..task
            };
            let work = after.work(BackgroundEvent::Level(level));
            &&& work.cache_limit is None
            &&& work.timer is None
        }),
{
}

/// What is loaded for a node that is not in the cache.
#[derive(Clone, Copy, Debug, PartialEq, Eq, Structural)]
pub enum NodeToLoad {
    /// The object with its handle.
    File,
    /// The directory, which may be casefolded or encrypted.
    Directory,
    /// Nothing is read until the link is.
    Symlink,
}

/// Says what is loaded for an object; other objects are not nodes.
pub fn node_to_load(descriptor: &ObjectDescriptor) -> (node: Result<NodeToLoad, FxfsError>)
    ensures
        node == (match *descriptor {
            ObjectDescriptor::File => Ok::<NodeToLoad, FxfsError>(NodeToLoad::File),
            ObjectDescriptor::Directory => Ok(NodeToLoad::Directory),
            ObjectDescriptor::Symlink => Ok(NodeToLoad::Symlink),
            ObjectDescriptor::Volume => Err(FxfsError::Inconsistent),
        }),
{
    match descriptor {
        ObjectDescriptor::File => Ok(NodeToLoad::File),
        ObjectDescriptor::Directory => Ok(NodeToLoad::Directory),
        ObjectDescriptor::Symlink => Ok(NodeToLoad::Symlink),
        _ => Err(FxfsError::Inconsistent),
    }
}

/// What a caller that asked for a node does next.
#[derive(Debug)]
pub enum NodeLoad {
    /// The node was there.
    Node(WeakNode),
    /// The caller waits until somebody else has loaded the node.
    Wait,
    /// The caller loads the node, and then commits it or drops the placeholder.
    Load(PlaceholderOwner, NodeToLoad),
    /// The object is no node.
    Inconsistent,
}

impl<W> FxVolume<W> {
    /// Attempts to get a node from the node cache. If the node wasn't present in the cache, says what is
    /// to be loaded from the object store; the placeholder is for the loaded node.
    pub fn get_or_load_node(
        &mut self,
        object_id: u64,
        descriptor: &ObjectDescriptor,
        ticket: &mut WaitTicket,
        waker: W,
        alive: bool,
    ) -> (load: NodeLoad)
        requires
            old(self).cache@.wf(),
            old(self).cache@.placeholders < u64::MAX,
            old(self).cache@.is_ticket(*old(ticket)),
        ensures
            final(self).cache@.wf(),
            final(self).fs_id == old(self).fs_id,
            final(self).background_task == old(self).background_task,
            final(self).read_ahead_size == old(self).read_ahead_size,
            final(self).cache@.is_ticket(*final(ticket)),
            match old(self).cache@.find(object_id, alive) {
                Found::Node(node) => {
                    &&& load == NodeLoad::Node(node)
                    &&& final(self).cache@ == old(self).cache@
                    &&& *final(ticket) == *old(ticket)
                },
                Found::Placeholder(sequence) => {
                    &&& load is Wait
                    &&& final(ticket).sequence == sequence
                    &&& final(self).cache@ == old(self).cache@.with_waiter(
                        sequence,
                        *old(ticket),
                        waker,
                    )
                },
                Found::Vacant => {
                    let owner = PlaceholderOwner { object_id, sequence: old(self).cache@.next() };
                    if *descriptor is Volume {
                        &&& load is Inconsistent
                        &&& final(self).cache@ == old(self).cache@.reserved(object_id).abandoned(
                            owner,
                        )
                    } else {
                        &&& final(self).cache@ == old(self).cache@.reserved(object_id)
                        &&& load == NodeLoad::Load(
                            owner,
                            match *descriptor {
                                ObjectDescriptor::File => NodeToLoad::File,
                                ObjectDescriptor::Directory => NodeToLoad::Directory,
                                _ => NodeToLoad::Symlink,
                            },
                        )
                    }
                },
            },
    {
        match self.cache.get_or_reserve(object_id, ticket, waker, alive) {
            GetResult::Node(node) => NodeLoad::Node(node),
            GetResult::Pending => NodeLoad::Wait,
            GetResult::Placeholder(owner) => match node_to_load(descriptor) {
                Ok(node) => NodeLoad::Load(owner, node),
                Err(_) => {
                    let _ = self.cache.drop_placeholder(owner);
                    NodeLoad::Inconsistent
                },
            },
        }
    }
}

/// Decides, once the last reference to a file has been deleted, whether its object is to be tombstoned
/// now.  `file` is the file if it is in memory; if it is open, it will be tombstoned when it is closed.
pub fn maybe_purge_file(file: Option<FxFile>) -> (result: (Option<FxFile>, bool))
    requires
        file matches Some(file) ==> !file.state@.to_be_purged,
    ensures
        match file {
            None => result.0 is None && result.1,
            Some(before) => {
                &&& result.0 matches Some(after)
                &&& after.handle == before.handle
                &&& after.state@ == (StateView { to_be_purged: true, ..before.state@ })
                &&& result.1 == (before.state@.open_count == 0)
            },
        },
{
    match file {
        None => (None, true),
        Some(file) => {
            let mut file = file;
            let unused = file.mark_to_be_purged();
            (Some(file), unused)
        },
    }
}

/// Whether a file in memory is flushed: unless it is marked to be purged, an open count is taken for the
/// time of the flush.
pub fn open_for_flush(file: FxFile) -> (node: Option<OpenedNode<FxFile>>)
    requires
        !file.state@.to_be_purged ==> file.state@.open_count < MAX_OPEN_COUNTS,
    ensures
        node is None <==> file.state@.to_be_purged,
        node matches Some(node) ==> {
            &&& node.0.handle == file.handle
            &&& node.0.state@ == (StateView {
                open_count: file.state@.open_count + 1,
                ..file.state@
            })
        },
{
    file.into_opened_node()
}

/// Gives up the open count that was taken to flush a file.  At the last chance to flush it, the file is
/// clean afterwards, whether or not the flush succeeded.  Returns the file, what is to be done about
/// closing it, and whether the reference that is held for dirty data is to be dropped after that.
pub fn flushed(node: OpenedNode<FxFile>, last_chance: bool) -> (result: (FxFile, CloseAction, bool))
    requires
        node.0.state@.open_count > 0,
    ensures
        ({
            let closed = state_closed(node.0.state@, node.0.handle.needs_flush);
            &&& result.0.handle == node.0.handle
            &&& result.1 == close_action(node.0.state@, node.0.handle.needs_flush)
            &&& result.2 == (last_chance && closed.dirty)
            &&& result.0.state@ == (StateView { dirty: closed.dirty && !last_chance, ..closed })
        }),
{
    let (file, action) = node.close();
    let mut file = file;
    let mut drop_reference = false;
    if last_chance {
        drop_reference = file.force_clean();
    }
    (file, action, drop_reference)
}

/// What is left to do once the tasks of a volume have ended and its caches are empty.
#[derive(Clone, Copy, Debug, PartialEq, Eq, Structural)]
pub struct TerminatePlan {
    /// Lock the store without writing anything.
    pub lock_read_only: bool,
    /// Flush all files for the last time, and then the graveyard.
    pub flush: bool,
    /// Lock the store; an error leaves it in a safe state.
    pub lock: bool,
    /// Sync the filesystem and flush the device.
    pub sync: bool,
}

/// Says what is left to do once the tasks of a volume have ended and its caches are empty.
///
/// If the filesystem is read only, we don't need to flush/sync anything.
pub fn plan_terminate(read_only: bool, is_unlocked: bool, has_crypt: bool) -> (plan: TerminatePlan)
    ensures
        plan == (TerminatePlan {
            lock_read_only: read_only && is_unlocked,
            flush: !read_only,
            lock: !read_only && has_crypt,
            sync: !read_only,
        }),
{
    if read_only {
        return TerminatePlan {
            lock_read_only: is_unlocked,
            flush: false,
            lock: false,
            sync: false,
        };
    }
    TerminatePlan { lock_read_only: false, flush: true, lock: has_crypt, sync: true }
}

/// Returns the object that holds the profile to replay, given what was found under its name.
pub fn profile_to_replay(found: Option<(u64, ObjectDescriptor)>) -> (object_id: Result<
    Option<u64>,
    FxfsError,
>)
    ensures
        object_id == (match found {
            None => Ok::<Option<u64>, FxfsError>(None),
            Some((id, ObjectDescriptor::File)) => Ok(Some(id)),
            Some(_) => Err(FxfsError::Inconsistent),
        }),
{
    match found {
        None => Ok(None),
        Some((id, ObjectDescriptor::File)) => Ok(Some(id)),
        Some(_) => Err(FxfsError::Inconsistent),
    }
}

/// Maximum entries to fit based on 64KiB message size minus 16 bytes of header, 16 bytes
/// of vector header, 16 bytes for the optional token header, and 8 bytes of token value.
pub const MAX_PROJECT_ENTRIES: usize = 8184;

/// A number of bytes and of nodes.
#[derive(Clone, Copy, Debug, PartialEq, Eq, Structural)]
pub struct BytesAndNodes {
    pub bytes: u64,
    pub nodes: u64,
}

/// A request about projects.
#[derive(Clone, Copy, Debug, PartialEq, Eq, Structural)]
pub enum ProjectIdRequest {
    SetLimit { project_id: u64, bytes: u64, nodes: u64 },
    Clear { project_id: u64 },
    SetForNode { node_id: u64, project_id: u64 },
    GetForNode { node_id: u64 },
    ClearForNode { node_id: u64 },
    List { token: Option<u64> },
    Info { project_id: u64 },
}

/// What the store is asked to do about a request.
#[derive(Clone, Copy, Debug, PartialEq, Eq, Structural)]
pub enum ProjectIdCall {
    SetProjectLimit { project_id: u64, bytes: u64, nodes: u64 },
    ClearProjectLimit { project_id: u64 },
    SetProjectForNode { node_id: u64, project_id: u64 },
    GetProjectForNode { node_id: u64 },
    ClearProjectForNode { node_id: u64 },
    ListProjects { start_id: u64, max_entries: usize },
    ProjectInfo { project_id: u64 },
}

/// What the store answered.
#[derive(Debug)]
pub enum ProjectIdAnswer {
    /// Done.
    Done,
    /// The project of a node.
    Project(u64),
    /// Some projects, and the first that is not among them.
    Projects(Vec<u64>, Option<u64>),
    /// The limit and the usage of a project.
    Info(Option<BytesAndNodes>, Option<BytesAndNodes>),
}

/// What the client is sent.
#[derive(Debug)]
pub enum ProjectIdReply {
    Done,
    Project(u64),
    Projects(Vec<u64>, Option<u64>),
    Info(BytesAndNodes, BytesAndNodes),
    /// The error, for which a status stands.
    Failed(FxfsError),
}

/// Says what the store is asked to do about a request.  Lists start with the token of the list before, and
/// hold as many entries as fit into a message.
pub fn project_id_call(request: &ProjectIdRequest) -> (call: ProjectIdCall)
    ensures
        call == (match *request {
            ProjectIdRequest::SetLimit { project_id, bytes, nodes } =>
                ProjectIdCall::SetProjectLimit { project_id, bytes, nodes },
            ProjectIdRequest::Clear { project_id } => ProjectIdCall::ClearProjectLimit {
                project_id,
            },
            ProjectIdRequest::SetForNode { node_id, project_id } =>
                ProjectIdCall::SetProjectForNode { node_id, project_id },
            ProjectIdRequest::GetForNode { node_id } => ProjectIdCall::GetProjectForNode { node_id },
            ProjectIdRequest::ClearForNode { node_id } => ProjectIdCall::ClearProjectForNode {
                node_id,
            },
            ProjectIdRequest::List { token } => ProjectIdCall::ListProjects {
                start_id: match token {
                    Some(id) => id,
                    None => 0,
                },
                max_entries: MAX_PROJECT_ENTRIES,
            },
            ProjectIdRequest::Info { project_id } => ProjectIdCall::ProjectInfo { project_id },
        }),
{
    match *request {
        ProjectIdRequest::SetLimit { project_id, bytes, nodes } => ProjectIdCall::SetProjectLimit {
            project_id,
            bytes,
            nodes,
        },
        ProjectIdRequest::Clear { project_id } => ProjectIdCall::ClearProjectLimit { project_id },
        ProjectIdRequest::SetForNode { node_id, project_id } => ProjectIdCall::SetProjectForNode {
            node_id,
            project_id,
        },
        ProjectIdRequest::GetForNode { node_id } => ProjectIdCall::GetProjectForNode { node_id },
        ProjectIdRequest::ClearForNode { node_id } => ProjectIdCall::ClearProjectForNode { node_id },
        ProjectIdRequest::List { token } => ProjectIdCall::ListProjects {
            start_id: match token {
                Some(id) => id,
                None => 0,
            },
            max_entries: MAX_PROJECT_ENTRIES,
        },
        ProjectIdRequest::Info { project_id } => ProjectIdCall::ProjectInfo { project_id },
    }
}

/// The limit and the usage of a project, of which at least one has to be known: without a limit there is
/// no limit, without usage nothing is used.
pub open spec fn project_info_of(
    limit: Option<BytesAndNodes>,
    usage: Option<BytesAndNodes>,
) -> Result<(BytesAndNodes, BytesAndNodes), FxfsError> {
    if limit is None && usage is None {
        Err(FxfsError::NotFound)
    } else {
        Ok(
            (
                match limit {
                    Some(limit) => limit,
                    None => BytesAndNodes { bytes: u64::MAX, nodes: u64::MAX },
                },
                match usage {
                    Some(usage) => usage,
                    None => BytesAndNodes { bytes: 0, nodes: 0 },
                },
            ),
        )
    }
}

/// Returns the limit and the usage of a project, given what the store knows of them.
pub fn project_info(limit: Option<BytesAndNodes>, usage: Option<BytesAndNodes>) -> (info: Result<
    (BytesAndNodes, BytesAndNodes),
    FxfsError,
>)
    ensures
        info == project_info_of(limit, usage),
{
    // At least one of them needs to be around to return anything.
    if limit.is_none() && usage.is_none() {
        return Err(FxfsError::NotFound);
    }
    let limit = match limit {
        Some(limit) => limit,
        None => BytesAndNodes { bytes: u64::MAX, nodes: u64::MAX },
    };
    let usage = match usage {
        Some(usage) => usage,
        None => BytesAndNodes { bytes: 0, nodes: 0 },
    };
    Ok((limit, usage))
}

/// Returns what the client is sent, given what the store answered.
pub fn project_id_reply(answer: Result<ProjectIdAnswer, FxfsError>) -> (reply: ProjectIdReply)
    ensures
        reply == (match answer {
            Err(error) => ProjectIdReply::Failed(error),
            Ok(ProjectIdAnswer::Done) => ProjectIdReply::Done,
            Ok(ProjectIdAnswer::Project(id)) => ProjectIdReply::Project(id),
            Ok(ProjectIdAnswer::Projects(entries, token)) => ProjectIdReply::Projects(
                entries,
                token,
            ),
            Ok(ProjectIdAnswer::Info(limit, usage)) => match project_info_of(limit, usage) {
                Ok((limit, usage)) => ProjectIdReply::Info(limit, usage),
                Err(error) => ProjectIdReply::Failed(error),
            },
        }),
{
    match answer {
        Err(error) => ProjectIdReply::Failed(error),
        Ok(ProjectIdAnswer::Done) => ProjectIdReply::Done,
        Ok(ProjectIdAnswer::Project(id)) => ProjectIdReply::Project(id),
        Ok(ProjectIdAnswer::Projects(entries, token)) => ProjectIdReply::Projects(entries, token),
        Ok(ProjectIdAnswer::Info(limit, usage)) => match project_info(limit, usage) {
            Ok((limit, usage)) => ProjectIdReply::Info(limit, usage),
            Err(error) => ProjectIdReply::Failed(error),
        },
    }
}

/// How many nodes a filesystem can hold, as far as it says.
pub const TOTAL_NODES: u64 = 0x7fff_ffff_ffff_ffff;

/// How much of a filesystem is in use.
#[derive(Clone, Copy, Debug, PartialEq, Eq, Structural)]
pub struct Info {
    pub total_bytes: u64,
    pub used_bytes: u64,
}

/// What a client learns of a filesystem.
#[derive(Clone, Copy, Debug, PartialEq, Eq, Structural)]
pub struct FilesystemInfo {
    pub total_bytes: u64,
    pub used_bytes: u64,
    pub total_nodes: u64,
    pub used_nodes: u64,
    pub free_shared_pool_bytes: u64,
    pub fs_id: u64,
    pub block_size: u32,
    pub max_filename_size: u32,
    pub fs_type: u32,
    pub padding: u32,
}

/// Returns what a client learns of a filesystem, apart from its name.  The longest name and the type of
/// the filesystem are those of the protocol that the client speaks.
pub fn info_to_filesystem_info(
    info: Info,
    block_size: u64,
    object_count: u64,
    fs_id: u64,
    max_name_length: u32,
    fs_type: u32,
) -> (filesystem: FilesystemInfo)
    ensures
        filesystem == (FilesystemInfo {
            total_bytes: info.total_bytes,
            used_bytes: info.used_bytes,
            total_nodes: TOTAL_NODES,
            used_nodes: object_count,
            free_shared_pool_bytes: 0,
            fs_id,
            block_size: block_size as u32,
            max_filename_size: max_name_length,
            fs_type,
            padding: 0,
        }),
{
    FilesystemInfo {
        total_bytes: info.total_bytes,
        used_bytes: info.used_bytes,
        total_nodes: TOTAL_NODES,
        used_nodes: object_count,
        free_shared_pool_bytes: 0,
        fs_id,
        block_size: #[verifier::truncate] (block_size as u32),
        max_filename_size: max_name_length,
        fs_type,
        padding: 0,
    }
}

/// Returns the name of the filesystem: "fxfs", padded with zeroes.
pub fn filesystem_name() -> (name: [i8; 32])
    ensures
        name@ == seq![0x66i8, 0x78, 0x66, 0x73] + Seq::new(28, |i: int| 0i8),
{
    let mut name: [i8; 32] = [0i8;32];
    name[0] = 0x66;
    name[1] = 0x78;
    name[2] = 0x66;
    name[3] = 0x73;
    assert(name@ =~= seq![0x66i8, 0x78, 0x66, 0x73] + Seq::new(28, |i: int| 0i8));
    name
}

/// What is known of a project is what is reported: whenever its usage is known, that is the usage, whether or not
/// there is a limit; and whenever its limit is known, that is the limit, whether or not anything is used.
pub proof fn lemma_what_is_known_of_a_project_is_reported(
    limit: Option<BytesAndNodes>,
    usage: Option<BytesAndNodes>,
)
    ensures
        ({
            let info = project_info_of(limit, usage);
            &&& usage matches Some(known) ==> (info matches Ok((_, reported)) && reported == known)
            &&& limit matches Some(known) ==> (info matches Ok((reported, _)) && reported == known)
            &&& info is Err <==> limit is None && usage is None
            &&& info matches Err(error) ==> error == FxfsError::NotFound
        }),
{
}

/// A project without a limit may use everything that can be counted, and one of which no usage is known uses
/// nothing.  So nothing that could be used is ever above a limit that is not there.
pub proof fn lemma_unknown_limits_and_usage(known: BytesAndNodes)
    ensures
        project_info_of(None, Some(known)) matches Ok((limit, _)) && limit.bytes >= known.bytes
            && limit.nodes >= known.nodes && limit.bytes == u64::MAX && limit.nodes == u64::MAX,
        project_info_of(Some(known), None) matches Ok((_, usage)) && usage.bytes == 0 && usage.nodes == 0,
{
}

/// Each level of memory pressure has its own configuration.
pub proof fn lemma_levels_have_their_configuration(
    config: MemoryPressureConfig,
    other: MemoryPressureLevelConfig,
)
    ensures
        config.at(MemoryPressureLevel::Normal) == config.mem_normal,
        config.at(MemoryPressureLevel::Warning) == config.mem_warning,
        config.at(MemoryPressureLevel::Critical) == config.mem_critical,
        (MemoryPressureConfig { mem_normal: other, ..config }).at(MemoryPressureLevel::Normal) == other,
        (MemoryPressureConfig { mem_warning: other, ..config }).at(MemoryPressureLevel::Warning) == other,
        (MemoryPressureConfig { mem_critical: other, ..config }).at(MemoryPressureLevel::Critical)
            == other,
{
}

/// Unless it is told otherwise, a volume works every 20 seconds, every 5 under pressure and every 1.5 when it is
/// critical, first after 70 seconds; it caches 2000, 100 or 20 nodes, and reads 128, 64 or 32 KiB ahead.
pub proof fn lemma_default_periods_and_limits()
    ensures
        ({
            let config = default_config();
            &&& config.mem_normal.background_task_period == 20_000
            &&& config.mem_warning.background_task_period == 5_000
            &&& config.mem_critical.background_task_period == 1_500
            &&& config.mem_normal.background_task_initial_delay == 70_000
            &&& config.mem_warning.background_task_initial_delay
                == config.mem_warning.background_task_period
            &&& config.mem_critical.background_task_initial_delay
                == config.mem_critical.background_task_period
            &&& config.mem_normal.cache_size_limit == 2000
            &&& config.mem_warning.cache_size_limit == 100
            &&& config.mem_critical.cache_size_limit == 20
            &&& config.mem_normal.read_ahead_size == 128 * 1024
            &&& config.mem_warning.read_ahead_size == 64 * 1024
            &&& config.mem_critical.read_ahead_size == 32 * 1024
            &&& default_normal() == config.mem_normal
        }),
{
}

/// The background task ends exactly when the volume is closed, and then does nothing else.  Files are flushed
/// whenever the timer goes off, and at once when memory pressure gets, or stays, critical.
pub proof fn lemma_files_are_flushed_in_time(task: BackgroundTask, event: BackgroundEvent)
    ensures
        ({
            let work = task.work(event);
            &&& work.terminate <==> event == BackgroundEvent::Terminate
            &&& event == BackgroundEvent::Terminate ==> !work.flush && !work.purge_layer_files
                && work.cache_limit is None && work.timer is None
            &&& event == BackgroundEvent::Timer ==> work.flush
            &&& event == BackgroundEvent::Level(MemoryPressureLevel::Critical) ==> work.flush
            &&& event == BackgroundEvent::Level(MemoryPressureLevel::Normal) || event
                == BackgroundEvent::Level(MemoryPressureLevel::Warning) ==> !work.flush
        }),
{
}

/// The timer is set again whenever it went off, for the period of the level that there is, and whenever the level
/// changes, for that of the new level; otherwise it is left alone.
pub proof fn lemma_timer_keeps_going(task: BackgroundTask, level: MemoryPressureLevel)
    ensures
        task.work(BackgroundEvent::Timer).timer == Some(task.config.at(task.level).background_task_period),
        task.work(BackgroundEvent::Timer).cache_limit is None,
        task.work(BackgroundEvent::Timer).purge_layer_files <==> task.level
            != MemoryPressureLevel::Normal,
        task.work(BackgroundEvent::Level(level)).purge_layer_files,
        task.work(BackgroundEvent::Level(level)).timer is Some <==> level != task.level,
        task.work(BackgroundEvent::Level(level)).cache_limit is Some <==> level != task.level,
        task.level_after(BackgroundEvent::Level(level)) == level,
        task.level_after(BackgroundEvent::Timer) == task.level,
        task.level_after(BackgroundEvent::Terminate) == task.level,
{
}

} // verus!
