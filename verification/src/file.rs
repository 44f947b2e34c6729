//! The state of files that the server has open.
use crate::node::{FxNode, OpenedNode};
use crate::object_record::{
    FxfsKey, ObjectDescriptor, PosixAttributes, Timestamp, FSCRYPT_KEY_ID,
};
use vstd::prelude::*;

verus! {

/// In many operating systems, it is possible to delete a file with open handles. In this case the
/// file will continue to use space on disk but will not openable and the storage it uses will be
/// freed when the last handle to the file is closed.
/// To provide this behaviour, we use this constant to denote files that are marked for deletion.
///
/// When the top bit of the open count is set, it means the file has been deleted and when the count
/// drops to zero, it will be tombstoned.  Once it has dropped to zero, it cannot be opened again.
pub const TO_BE_PURGED: u64 = 0x8000_0000_0000_0000;

/// This is the second most significant bit of `open_count`. It set, it indicates that the file is
/// an unnamed temporary file (i.e. it lives in the graveyard *temporarily* and can be moved out if
/// it was linked into the filesystem permanently). An unnamed temporary file can be linked into a
/// directory, which gives it a name and makes it permanent. Internally, linking a regular file and
/// an unnamed temporary file is handled slightly differently because the latter resides in the
/// graveyard. We need to be able to identify if a file is an unnamed temporary file whenever there
/// is an attempt to link it into a directory. Once it has been linked into the filesystem, it is no
/// longer temporary (it does not reside in the graveyard anymore) and this bit will be set to 0.
pub const IS_TEMPORARILY_IN_GRAVEYARD: u64 = 0x4000_0000_0000_0000;

/// The file is dirty and needs to be flushed.  When this bit is set, we hold a strong count to
/// ensure the file cannot be dropped.
pub const IS_DIRTY: u64 = 0x2000_0000_0000_0000;

/// An unnamed temporary file lives in the graveyard and has to marked to be purged to make sure
/// that the storage this file uses will be freed when the last handle to it closes.
pub const IS_UNNAMED_TEMPORARY: u64 = 0xc000_0000_0000_0000;

/// The maximum value of open counts. The most significant bits are used to indicate other
/// information regarding the state of the file. See the consts defined above.
pub const MAX_OPEN_COUNTS: u64 = 0x1fff_ffff_ffff_ffff;

/// What the state of a file says.
pub struct StateView {
    pub open_count: int,
    pub to_be_purged: bool,
    pub in_graveyard: bool,
    pub dirty: bool,
}

/// The state of a file: how often it is open, and some bits.
#[derive(Clone, Copy, Debug, PartialEq, Eq, Structural)]
pub struct State(pub u64);

impl View for State {
    type V = StateView;

    open spec fn view(&self) -> StateView {
        StateView {
            open_count: (self.0 & MAX_OPEN_COUNTS) as int,
            to_be_purged: self.0 & TO_BE_PURGED != 0,
            in_graveyard: self.0 & IS_TEMPORARILY_IN_GRAVEYARD != 0,
            dirty: self.0 & IS_DIRTY != 0,
        }
    }
}

impl StateView {
    /// The file is an unnamed temporary file.
    pub open spec fn unnamed_temporary(self) -> bool {
        self.to_be_purged && self.in_graveyard
    }

    /// The file is deleted and no longer open.
    pub open spec fn tombstoned(self) -> bool {
        self.to_be_purged && self.open_count == 0
    }
}

/// What is to be done when a file is closed.
#[derive(Clone, Copy, Debug, PartialEq, Eq, Structural)]
pub struct CloseAction {
    /// Take a strong reference, so that the file is not dropped until it has been flushed.
    pub take_reference: bool,
    /// Drop the strong reference that was taken when the file became dirty.
    pub drop_reference: bool,
    /// Queue the file to be tombstoned.  There is no point in flushing it.
    pub queue_tombstone: bool,
}

/// The state after one open count has been given up.
pub open spec fn state_closed(state: StateView, needs_flush: bool) -> StateView {
    StateView {
        open_count: state.open_count - 1,
        dirty: if state.open_count != 1 {
            state.dirty
        } else {
            needs_flush && !state.to_be_purged
        },
        ..state
    }
}

/// What is to be done when one open count is given up.
pub open spec fn close_action(state: StateView, needs_flush: bool) -> CloseAction {
    let after = state_closed(state, needs_flush);
    CloseAction {
        take_reference: after.dirty && !state.dirty,
        drop_reference: state.dirty && !after.dirty,
        queue_tombstone: after.tombstoned(),
    }
}

impl State {
    pub fn open_count(&self) -> (count: u64)
        ensures
            count == self@.open_count,
            count <= MAX_OPEN_COUNTS,
    {
        let s: u64 = self.0;
        assert(s & 0x1fff_ffff_ffff_ffff <= 0x1fff_ffff_ffff_ffff) by (bit_vector);
        s & MAX_OPEN_COUNTS
    }

    pub fn to_be_purged(&self) -> (purged: bool)
        ensures
            purged == self@.to_be_purged,
    {
        self.0 & TO_BE_PURGED != 0
    }

    pub fn is_temporarily_in_graveyard(&self) -> (temporarily: bool)
        ensures
            temporarily == self@.in_graveyard,
    {
        self.0 & IS_TEMPORARILY_IN_GRAVEYARD != 0
    }

    pub fn is_unnamed_temporary(&self) -> (temporary: bool)
        ensures
            temporary == self@.unnamed_temporary(),
    {
        let s: u64 = self.0;
        assert((s & 0xc000_0000_0000_0000 == 0xc000_0000_0000_0000) <==> (s
            & 0x8000_0000_0000_0000 != 0 && s & 0x4000_0000_0000_0000 != 0)) by (bit_vector);
        s & IS_UNNAMED_TEMPORARY == IS_UNNAMED_TEMPORARY
    }

    pub fn will_be_tombstoned(&self) -> (will: bool)
        ensures
            will == self@.tombstoned(),
    {
        self.to_be_purged() && self.open_count() == 0
    }

    pub fn is_dirty(&self) -> (dirty: bool)
        ensures
            dirty == self@.dirty,
    {
        self.0 & IS_DIRTY != 0
    }

    /// Returns the state with one more open count, unless the file is deleted and no longer open.
    pub fn opened(&self) -> (state: Option<State>)
        requires
            !self@.tombstoned() ==> self@.open_count < MAX_OPEN_COUNTS,
        ensures
            match state {
                None => self@.tombstoned(),
                Some(state) => {
                    &&& !self@.tombstoned()
                    &&& state@ == (StateView { open_count: self@.open_count + 1, ..self@ })
                },
            },
    {
        if self.will_be_tombstoned() {
            return None;
        }
        let s: u64 = self.0;
        assert(s & 0x1fff_ffff_ffff_ffff < 0x1fff_ffff_ffff_ffff ==> {
            &&& s < 0xffff_ffff_ffff_ffff
            &&& ((s + 1) as u64) & 0x1fff_ffff_ffff_ffff == (s & 0x1fff_ffff_ffff_ffff) + 1
            &&& ((s + 1) as u64) & 0x8000_0000_0000_0000 == s & 0x8000_0000_0000_0000
            &&& ((s + 1) as u64) & 0x4000_0000_0000_0000 == s & 0x4000_0000_0000_0000
            &&& ((s + 1) as u64) & 0x2000_0000_0000_0000 == s & 0x2000_0000_0000_0000
        }) by (bit_vector);
        Some(State(s + 1))
    }

    /// Returns the state with one open count less, and what is to be done about it.
    ///
    /// If it's the last open count, dirty data has to be flushed, and the file is to be purged if it is
    /// so marked.
    pub fn closed(&self, needs_flush: bool) -> (result: (State, CloseAction))
        requires
            self@.open_count > 0,
        ensures
            result.0@ == state_closed(self@, needs_flush),
            result.1 == close_action(self@, needs_flush),
    {
        let s: u64 = self.0;
        proof {
            lemma_one_less(s);
            lemma_clean(s);
            lemma_dirty(s);
            lemma_one_less(s & !0x2000_0000_0000_0000u64);
            lemma_one_less(s | 0x2000_0000_0000_0000u64);
        }
        if self.open_count() == 1 {
            if self.to_be_purged() {
                let action = CloseAction {
                    take_reference: false,
                    drop_reference: self.is_dirty(),
                    queue_tombstone: true,
                };
                return (State((s & !IS_DIRTY) - 1), action);
            }
            // If the file is dirty, we need to hold a strong reference to make sure the file
            // doesn't go away until it has been flushed.
            if needs_flush {
                if !self.is_dirty() {
                    let action = CloseAction {
                        take_reference: true,
                        drop_reference: false,
                        queue_tombstone: false,
                    };
                    return (State((s | IS_DIRTY) - 1), action);
                }
            } else if self.is_dirty() {
                // File is no longer dirty.
                let action = CloseAction {
                    take_reference: false,
                    drop_reference: true,
                    queue_tombstone: false,
                };
                return (State((s & !IS_DIRTY) - 1), action);
            }
        }
        let action = CloseAction {
            take_reference: false,
            drop_reference: false,
            queue_tombstone: false,
        };
        (State(s - 1), action)
    }

    /// Returns the state marked to be purged, and whether there are no open references.
    pub fn purged(&self) -> (result: (State, bool))
        requires
            !self@.to_be_purged,
        ensures
            result.0@ == (StateView { to_be_purged: true, ..self@ }),
            result.1 == (self@.open_count == 0),
    {
        let s: u64 = self.0;
        assert((s | 0x8000_0000_0000_0000) & 0x8000_0000_0000_0000 != 0 && (s
            | 0x8000_0000_0000_0000) & 0x1fff_ffff_ffff_ffff == s & 0x1fff_ffff_ffff_ffff && (s
            | 0x8000_0000_0000_0000) & 0x4000_0000_0000_0000 == s & 0x4000_0000_0000_0000 && (s
            | 0x8000_0000_0000_0000) & 0x2000_0000_0000_0000 == s & 0x2000_0000_0000_0000)
            by (bit_vector);
        (State(s | TO_BE_PURGED), self.open_count() == 0)
    }

    /// Returns the state of a temporary file that became permanent.
    pub fn permanent(&self) -> (state: State)
        requires
            self@.unnamed_temporary(),
        ensures
            state@ == (StateView { to_be_purged: false, in_graveyard: false, ..self@ }),
    {
        let s: u64 = self.0;
        assert((s & !0xc000_0000_0000_0000u64) & 0x8000_0000_0000_0000 == 0 && (s
            & !0xc000_0000_0000_0000u64) & 0x4000_0000_0000_0000 == 0 && (s
            & !0xc000_0000_0000_0000u64) & 0x1fff_ffff_ffff_ffff == s & 0x1fff_ffff_ffff_ffff && (s
            & !0xc000_0000_0000_0000u64) & 0x2000_0000_0000_0000 == s & 0x2000_0000_0000_0000)
            by (bit_vector);
        State(s & !IS_UNNAMED_TEMPORARY)
    }

    /// Returns the state marked clean.
    pub fn clean(&self) -> (state: State)
        ensures
            state@ == (StateView { dirty: false, ..self@ }),
    {
        proof {
            lemma_clean(self.0);
        }
        State(self.0 & !IS_DIRTY)
    }
}

proof fn lemma_one_less(s: u64)
    ensures
        s & MAX_OPEN_COUNTS > 0 ==> {
            &&& s > 0
            &&& ((s - 1) as u64) & MAX_OPEN_COUNTS == (s & MAX_OPEN_COUNTS) - 1
            &&& ((s - 1) as u64) & TO_BE_PURGED == s & TO_BE_PURGED
            &&& ((s - 1) as u64) & IS_TEMPORARILY_IN_GRAVEYARD == s & IS_TEMPORARILY_IN_GRAVEYARD
            &&& ((s - 1) as u64) & IS_DIRTY == s & IS_DIRTY
        },
{
    assert(s & 0x1fff_ffff_ffff_ffff > 0 ==> {
        &&& s > 0
        &&& ((s - 1) as u64) & 0x1fff_ffff_ffff_ffff == (s & 0x1fff_ffff_ffff_ffff) - 1
        &&& ((s - 1) as u64) & 0x8000_0000_0000_0000 == s & 0x8000_0000_0000_0000
        &&& ((s - 1) as u64) & 0x4000_0000_0000_0000 == s & 0x4000_0000_0000_0000
        &&& ((s - 1) as u64) & 0x2000_0000_0000_0000 == s & 0x2000_0000_0000_0000
    }) by (bit_vector);
}

proof fn lemma_clean(s: u64)
    ensures
        (s & !IS_DIRTY) & IS_DIRTY == 0,
        (s & !IS_DIRTY) & MAX_OPEN_COUNTS == s & MAX_OPEN_COUNTS,
        (s & !IS_DIRTY) & TO_BE_PURGED == s & TO_BE_PURGED,
        (s & !IS_DIRTY) & IS_TEMPORARILY_IN_GRAVEYARD == s & IS_TEMPORARILY_IN_GRAVEYARD,
{
    assert((s & !0x2000_0000_0000_0000u64) & 0x2000_0000_0000_0000 == 0 && (s
        & !0x2000_0000_0000_0000u64) & 0x1fff_ffff_ffff_ffff == s & 0x1fff_ffff_ffff_ffff && (s
        & !0x2000_0000_0000_0000u64) & 0x8000_0000_0000_0000 == s & 0x8000_0000_0000_0000 && (s
        & !0x2000_0000_0000_0000u64) & 0x4000_0000_0000_0000 == s & 0x4000_0000_0000_0000)
        by (bit_vector);
}

proof fn lemma_dirty(s: u64)
    ensures
        (s | IS_DIRTY) & IS_DIRTY != 0,
        (s | IS_DIRTY) & MAX_OPEN_COUNTS == s & MAX_OPEN_COUNTS,
        (s | IS_DIRTY) & TO_BE_PURGED == s & TO_BE_PURGED,
        (s | IS_DIRTY) & IS_TEMPORARILY_IN_GRAVEYARD == s & IS_TEMPORARILY_IN_GRAVEYARD,
{
    assert((s | 0x2000_0000_0000_0000) & 0x2000_0000_0000_0000 != 0 && (s
        | 0x2000_0000_0000_0000) & 0x1fff_ffff_ffff_ffff == s & 0x1fff_ffff_ffff_ffff && (s
        | 0x2000_0000_0000_0000) & 0x8000_0000_0000_0000 == s & 0x8000_0000_0000_0000 && (s
        | 0x2000_0000_0000_0000) & 0x4000_0000_0000_0000 == s & 0x4000_0000_0000_0000)
        by (bit_vector);
}

/// A strong reference is held exactly while the file is dirty: closing takes one when the file becomes
/// dirty and drops it when the file stops being dirty, never both.
pub proof fn lemma_reference_follows_dirty(state: StateView, needs_flush: bool)
    ensures
        ({
            let action = close_action(state, needs_flush);
            let held: int = if state.dirty { 1 } else { 0 };
            let taken: int = if action.take_reference { 1 } else { 0 };
            let dropped: int = if action.drop_reference { 1 } else { 0 };
            let after: int = if state_closed(state, needs_flush).dirty { 1 } else { 0 };
            held + taken - dropped == after
        }),
{
}

/// A file is queued to be tombstoned exactly once: when the last of its open counts goes, if it is to be
/// purged.  It cannot be opened after that.
pub proof fn lemma_tombstoned_once(state: StateView, needs_flush: bool)
    requires
        state.open_count > 0,
    ensures
        !state.tombstoned(),
        close_action(state, needs_flush).queue_tombstone <==> state.to_be_purged && state.open_count
            == 1,
        close_action(state, needs_flush).queue_tombstone ==> state_closed(
            state,
            needs_flush,
        ).tombstoned(),
{
}

/// Opening a file that is open already and then closing it leaves its state as it was.
pub proof fn lemma_close_undoes_open(state: StateView, needs_flush: bool)
    requires
        state.open_count > 0,
    ensures
        ({
            let opened = StateView { open_count: state.open_count + 1, ..state };
            &&& state_closed(opened, needs_flush) == state
            &&& close_action(opened, needs_flush) == (CloseAction {
                take_reference: false,
                drop_reference: false,
                queue_tombstone: false,
            })
        }),
{
}

/// The state of a file that was opened as a temporary one.
pub open spec fn temporary_state() -> StateView {
    StateView { open_count: 1, to_be_purged: true, in_graveyard: true, dirty: false }
}

/// A temporary file goes away when it is closed, however much of it is dirty; once it is linked into a
/// directory it stays, and what is dirty is flushed.
pub proof fn lemma_temporary_file_goes_away(needs_flush: bool)
    ensures
        temporary_state().unnamed_temporary(),
        close_action(temporary_state(), needs_flush) == (CloseAction {
            take_reference: false,
            drop_reference: false,
            queue_tombstone: true,
        }),
        ({
            let linked = StateView {
                to_be_purged: false,
                in_graveyard: false,
                ..temporary_state()
            };
            &&& !linked.unnamed_temporary()
            &&& close_action(linked, needs_flush) == (CloseAction {
                take_reference: needs_flush,
                drop_reference: false,
                queue_tombstone: false,
            })
        }),
{
}

/// What a file is read from and written to.
#[derive(Clone, Copy, Debug, PartialEq, Eq, Structural)]
pub struct FileHandle {
    pub object_id: u64,
    pub block_size: u64,
    /// The content is verified when it is read.
    pub verified: bool,
    /// There is data that is not flushed yet.
    pub needs_flush: bool,
}

/// What the object of a file records.
#[derive(Clone, Copy, Debug, PartialEq, Eq, Structural)]
pub struct ObjectProperties {
    pub refs: u64,
    pub allocated_size: u64,
    pub data_attribute_size: u64,
    pub creation_time: Timestamp,
    pub modification_time: Timestamp,
    pub access_time: Timestamp,
    pub change_time: Timestamp,
    pub posix_attributes: Option<PosixAttributes>,
}

/// What is known of the security context of a file without looking at its extended attributes.
#[derive(Debug)]
pub enum SelinuxContext {
    Data(Vec<u8>),
    /// It is found among the extended attributes.
    UseExtendedAttributes,
}

/// How a file is verified.
#[derive(Debug)]
pub struct VerificationOptions {
    pub hash_algorithm: HashAlgorithm,
    pub salt: Vec<u8>,
}

/// The algorithm that a file is verified with.
#[derive(Clone, Copy, Debug, PartialEq, Eq, Structural)]
pub enum HashAlgorithm {
    Sha256,
    Sha512,
}

/// What a client can do with a node.
#[derive(Clone, Copy, Debug, PartialEq, Eq, Structural)]
pub struct Operations {
    pub get_attributes: bool,
    pub update_attributes: bool,
    pub read_bytes: bool,
    pub write_bytes: bool,
}

/// The attributes that can be asked for of a file.  Times are in nanoseconds.
#[derive(Debug)]
pub struct NodeAttributes {
    /// Files speak the protocol of files.
    pub protocol: ObjectDescriptor,
    pub abilities: Operations,
    pub selinux_context: Option<SelinuxContext>,
    pub options: Option<VerificationOptions>,
    pub root_hash: Option<Vec<u8>>,
    pub creation_time: u64,
    pub modification_time: u64,
    pub access_time: u64,
    pub change_time: u64,
    pub mode: Option<u32>,
    pub uid: Option<u32>,
    pub gid: Option<u32>,
    pub rdev: Option<u64>,
    pub wrapping_key_id: Option<u128>,
    pub content_size: u64,
    pub storage_size: u64,
    pub link_count: u64,
    pub id: u64,
    pub verity_enabled: bool,
}

/// FxFile represents an open connection to a file.
pub struct FxFile {
    pub handle: FileHandle,
    pub state: State,
}

impl FxFile {
    /// Creates a new regular FxFile.
    pub fn new(handle: FileHandle) -> (file: Self)
        ensures
            file.handle == handle,
            file.state == State(0),
            file.state@ == (StateView {
                open_count: 0,
                to_be_purged: false,
                in_graveyard: false,
                dirty: false,
            }),
    {
        assert(0u64 & 0x1fff_ffff_ffff_ffff == 0 && 0u64 & 0x8000_0000_0000_0000 == 0 && 0u64
            & 0x4000_0000_0000_0000 == 0 && 0u64 & 0x2000_0000_0000_0000 == 0) by (bit_vector);
        FxFile { handle, state: State(0) }
    }

    /// Open the file as a temporary.  The file must have just been created with no other open
    /// counts.
    pub fn open_as_temporary(self) -> (node: OpenedNode<FxFile>)
        requires
            self.state == State(0),
        ensures
            node.0.handle == self.handle,
            node.0.state@ == temporary_state(),
    {
        assert((1u64 | 0xc000_0000_0000_0000) & 0x1fff_ffff_ffff_ffff == 1 && (1u64
            | 0xc000_0000_0000_0000) & 0x8000_0000_0000_0000 != 0 && (1u64
            | 0xc000_0000_0000_0000) & 0x4000_0000_0000_0000 != 0 && (1u64
            | 0xc000_0000_0000_0000) & 0x2000_0000_0000_0000 == 0) by (bit_vector);
        let mut file = self;
        file.state = State(1 | IS_UNNAMED_TEMPORARY);
        OpenedNode(file)
    }

    /// Mark the state as permanent (to be used when the file is currently marked as temporary).
    pub fn mark_as_permanent(&mut self)
        requires
            old(self).state@.unnamed_temporary(),
        ensures
            final(self).handle == old(self).handle,
            final(self).state@ == (StateView {
                to_be_purged: false,
                in_graveyard: false,
                ..old(self).state@
            }),
    {
        self.state = self.state.permanent();
    }

    pub fn is_verified_file(&self) -> (verified: bool)
        ensures
            verified == self.handle.verified,
    {
        self.handle.verified
    }

    pub fn handle(&self) -> (handle: &FileHandle)
        ensures
            *handle == self.handle,
    {
        &self.handle
    }

    /// If this instance has not been marked to be purged, returns an OpenedNode instance.
    /// If marked for purging, returns None.
    pub fn into_opened_node(self) -> (node: Option<OpenedNode<FxFile>>)
        requires
            !self.state@.to_be_purged ==> self.state@.open_count < MAX_OPEN_COUNTS,
        ensures
            node is None <==> self.state@.to_be_purged,
            node matches Some(node) ==> {
                &&& node.0.handle == self.handle
                &&& node.0.state@ == (StateView {
                    open_count: self.state@.open_count + 1,
                    ..self.state@
                })
            },
    {
        let mut file = self;
        if file.load_state().to_be_purged() {
            return None;
        }
        if file.increment_open_count() {
            Some(OpenedNode(file))
        } else {
            None
        }
    }

    pub fn get_block_size(&self) -> (block_size: u64)
        ensures
            block_size == self.handle.block_size,
    {
        self.handle.block_size
    }

    /// Forcibly marks the file as clean.  Returns whether the reference that is held for dirty data is to
    /// be dropped.
    pub fn force_clean(&mut self) -> (drop_reference: bool)
        ensures
            drop_reference == old(self).state@.dirty,
            final(self).handle == old(self).handle,
            final(self).state@ == (StateView { dirty: false, ..old(self).state@ }),
    {
        let was = self.state;
        self.state = was.clean();
        was.is_dirty()
    }

    /// Increments the open count by 1. Returns true if successful.
    pub fn increment_open_count(&mut self) -> (opened: bool)
        requires
            !old(self).state@.tombstoned() ==> old(self).state@.open_count < MAX_OPEN_COUNTS,
        ensures
            opened == !old(self).state@.tombstoned(),
            final(self).handle == old(self).handle,
            opened ==> final(self).state@ == (StateView {
                open_count: old(self).state@.open_count + 1,
                ..old(self).state@
            }),
            !opened ==> final(self).state == old(self).state,
    {
        match self.load_state().opened() {
            Some(state) => {
                self.state = state;
                true
            },
            None => false,
        }
    }

    pub fn load_state(&self) -> (state: State)
        ensures
            state == self.state,
    {
        self.state
    }

    /// Mark the state as to be purged. Returns true if there are no open references.
    pub fn mark_to_be_purged(&mut self) -> (unused: bool)
        requires
            !old(self).state@.to_be_purged,
        ensures
            unused == (old(self).state@.open_count == 0),
            final(self).handle == old(self).handle,
            final(self).state@ == (StateView { to_be_purged: true, ..old(self).state@ }),
    {
        let (state, unused) = self.load_state().purged();
        self.state = state;
        unused
    }

    /// Returns the link count of a file with `refs` references.
    ///
    /// In most cases, the reference count of objects can be used as the link count. There are two cases
    /// where this is not the case - for unnamed temporary files and unlink files with no more open
    /// references to it. For these two cases, the link count should be zero (the object reference count is
    /// one as they live in the graveyard).
    pub fn link_count(&self, refs: u64) -> (links: u64)
        ensures
            links == (if self.state@.to_be_purged && refs == 1 {
                0
            } else {
                refs
            }),
    {
        if self.load_state().to_be_purged() && refs == 1 {
            0
        } else {
            refs
        }
    }

    /// Returns the attributes of the file.  `wrapping_key_id` is the key that the key of the file is
    /// wrapped with, and `descriptor` says how a verified file is verified, and its root hash.
    pub fn get_attributes(
        &self,
        props: &ObjectProperties,
        wrapping_key_id: Option<u128>,
        selinux_context: Option<SelinuxContext>,
        descriptor: Option<(VerificationOptions, Vec<u8>)>,
    ) -> (attributes: NodeAttributes)
        ensures
            attributes == (NodeAttributes {
                protocol: ObjectDescriptor::File,
                abilities: Operations {
                    get_attributes: true,
                    update_attributes: true,
                    read_bytes: true,
                    write_bytes: true,
                },
                selinux_context,
                options: match descriptor {
                    Some((options, _)) => Some(options),
                    None => None,
                },
                root_hash: match descriptor {
                    Some((_, root_hash)) => Some(root_hash),
                    None => None,
                },
                creation_time: props.creation_time.nanos,
                modification_time: props.modification_time.nanos,
                access_time: props.access_time.nanos,
                change_time: props.change_time.nanos,
                mode: match props.posix_attributes {
                    Some(posix) => Some(posix.mode),
                    None => None,
                },
                uid: match props.posix_attributes {
                    Some(posix) => Some(posix.uid),
                    None => None,
                },
                gid: match props.posix_attributes {
                    Some(posix) => Some(posix.gid),
                    None => None,
                },
                rdev: match props.posix_attributes {
                    Some(posix) => Some(posix.rdev),
                    None => None,
                },
                wrapping_key_id,
                content_size: props.data_attribute_size,
                storage_size: props.allocated_size,
                link_count: if self.state@.to_be_purged && props.refs == 1 {
                    0
                } else {
                    props.refs
                },
                id: self.handle.object_id,
                verity_enabled: self.handle.verified,
            }),
    {
        let (mode, uid, gid, rdev) = match props.posix_attributes {
            Some(posix) => (Some(posix.mode), Some(posix.uid), Some(posix.gid), Some(posix.rdev)),
            None => (None, None, None, None),
        };
        let (options, root_hash) = match descriptor {
            Some((options, root_hash)) => (Some(options), Some(root_hash)),
            None => (None, None),
        };
        NodeAttributes {
            protocol: ObjectDescriptor::File,
            abilities: Operations {
                get_attributes: true,
                update_attributes: true,
                read_bytes: true,
                write_bytes: true,
            },
            selinux_context,
            options,
            root_hash,
            creation_time: props.creation_time.as_nanos(),
            modification_time: props.modification_time.as_nanos(),
            access_time: props.access_time.as_nanos(),
            change_time: props.change_time.as_nanos(),
            mode,
            uid,
            gid,
            rdev,
            wrapping_key_id,
            content_size: props.data_attribute_size,
            storage_size: props.allocated_size,
            link_count: self.link_count(props.refs),
            id: self.handle.object_id,
            verity_enabled: self.is_verified_file(),
        }
    }

    /// Says how the file is linked into a directory.
    pub fn plan_link(&self) -> (plan: LinkPlan)
        ensures
            plan == (if self.state@.unnamed_temporary() {
                LinkPlan::FromGraveyard
            } else if self.state@.to_be_purged {
                LinkPlan::NotFound
            } else {
                LinkPlan::Plain
            }),
    {
        let state = self.load_state();
        if state.is_unnamed_temporary() {
            LinkPlan::FromGraveyard
        } else if state.to_be_purged() {
            LinkPlan::NotFound
        } else {
            LinkPlan::Plain
        }
    }
}

impl FxNode for FxFile {
    type Closed = CloseAction;

    open spec fn spec_object_id(&self) -> u64 {
        self.handle.object_id
    }

    open spec fn knows_parent(&self) -> bool {
        false
    }

    open spec fn spec_parent(&self) -> Option<u64> {
        None
    }

    open spec fn open_counts(&self) -> int {
        self.state@.open_count
    }

    open spec fn can_open(&self) -> bool {
        !self.state@.tombstoned() && self.state@.open_count < MAX_OPEN_COUNTS
    }

    open spec fn is_opened(&self, before: &Self) -> bool {
        &&& self.handle == before.handle
        &&& self.state@ == (StateView {
            open_count: before.state@.open_count + 1,
            ..before.state@
        })
    }

    open spec fn is_closed(&self, before: &Self, closed: &CloseAction) -> bool {
        &&& self.handle == before.handle
        &&& self.state@ == state_closed(before.state@, before.handle.needs_flush)
        &&& *closed == close_action(before.state@, before.handle.needs_flush)
    }

    fn object_id(&self) -> (id: u64) {
        self.handle.object_id
    }

    /// A file has no reference back to its parent, so it is never asked for it.
    fn parent(&self) -> (parent: Option<u64>) {
        None
    }

    /// A file takes no note of its parent.
    fn set_parent(&mut self, parent: u64)
        ensures
            *final(self) == *old(self),
    {
    }

    fn open_count_add_one(&mut self) {
        let _ = self.increment_open_count();
    }

    fn open_count_sub_one(&mut self) -> (closed: CloseAction) {
        let (state, action) = self.load_state().closed(self.handle.needs_flush);
        self.state = state;
        action
    }

    fn object_descriptor(&self) -> (descriptor: ObjectDescriptor)
        ensures
            descriptor == ObjectDescriptor::File,
    {
        ObjectDescriptor::File
    }
}

/// How a file is linked into a directory.
#[derive(Clone, Copy, Debug, PartialEq, Eq, Structural)]
pub enum LinkPlan {
    /// The file is moved out of the graveyard and marked as permanent.
    FromGraveyard,
    /// The file gets another name.
    Plain,
    /// The file is unlinked.
    NotFound,
}

/// The memory that a client asks for.
#[derive(Clone, Copy, Debug, PartialEq, Eq, Structural)]
pub struct VmoFlags {
    pub read: bool,
    pub write: bool,
    pub execute: bool,
    pub private_clone: bool,
}

/// The memory that a client gets, apart from the basic rights, the right to map it and the right to get
/// its properties.
#[derive(Clone, Copy, Debug, PartialEq, Eq, Structural)]
pub struct VmoPlan {
    pub read: bool,
    pub write: bool,
    pub set_property: bool,
    pub resize: bool,
    /// A snapshot rather than a reference.
    pub snapshot: bool,
    /// The snapshot can be resized.
    pub resizable: bool,
}

/// Says which memory a client gets, or none: executable memory is not supported.
///
/// The content size and name of a private clone may be changed even if it may not be written.
pub fn plan_backing_memory(flags: &VmoFlags) -> (plan: Option<VmoPlan>)
    ensures
        plan == (if flags.execute {
            None
        } else {
            Some(
                VmoPlan {
                    read: flags.read,
                    write: flags.write,
                    set_property: flags.private_clone,
                    resize: flags.private_clone && flags.write,
                    snapshot: flags.private_clone,
                    resizable: flags.private_clone && flags.write,
                },
            )
        }),
{
    // We do not support executable VMO handles.
    if flags.execute {
        return None;
    }
    let mut plan = VmoPlan {
        read: flags.read,
        write: flags.write,
        set_property: false,
        resize: false,
        snapshot: false,
        resizable: false,
    };
    if flags.private_clone {
        plan.set_property = true;
        plan.snapshot = true;
        if flags.write {
            plan.resizable = true;
            plan.resize = true;
        }
    }
    Some(plan)
}

/// Returns the end of the range to allocate, or none if the file would get too big.
pub fn allocation_end(offset: u64, length: u64) -> (end: Option<u64>)
    ensures
        end == (if offset + length > u64::MAX {
            None
        } else {
            Some((offset + length) as u64)
        }),
{
    offset.checked_add(length)
}

/// The index of the first of `keys` with the ID `key_id`, or the number of keys.
pub open spec fn key_index(keys: Seq<(u64, FxfsKey)>, key_id: u64) -> nat
    decreases keys.len(),
{
    if keys.len() == 0 || keys[0].0 == key_id {
        0
    } else {
        1 + key_index(keys.skip(1), key_id)
    }
}

proof fn lemma_key_index(keys: Seq<(u64, FxfsKey)>, key_id: u64, count: int)
    requires
        0 <= count <= keys.len(),
        forall|i: int| 0 <= i < count ==> (#[trigger] keys[i]).0 != key_id,
    ensures
        key_index(keys, key_id) == count + key_index(keys.skip(count), key_id),
    decreases count,
{
    if count > 0 {
        let rest = keys.skip(1);
        assert forall|i: int| 0 <= i < count - 1 implies (#[trigger] rest[i]).0 != key_id by {
            assert(rest[i] == keys[i + 1]);
        }
        lemma_key_index(rest, key_id, count - 1);
        assert(rest.skip(count - 1) =~= keys.skip(count));
        assert(keys[0].0 != key_id);
    } else {
        assert(keys.skip(0) =~= keys);
    }
}

/// Returns the key with which the key of a file in an encrypted directory is wrapped, if the store is
/// encrypted and the file has one among `keys`.
pub fn fscrypt_wrapping_key_id(encrypted: bool, keys: &Vec<(u64, FxfsKey)>) -> (id: Option<u128>)
    ensures
        id == (if encrypted && key_index(keys@, FSCRYPT_KEY_ID) < keys@.len() {
            Some(keys@[key_index(keys@, FSCRYPT_KEY_ID) as int].1.wrapping_key_id)
        } else {
            None
        }),
{
    if !encrypted {
        return None;
    }
    let mut i: usize = 0;
    while i < keys.len()
        invariant
            encrypted,
            i <= keys@.len(),
            forall|j: int| 0 <= j < i ==> (#[trigger] keys@[j]).0 != FSCRYPT_KEY_ID,
        decreases keys@.len() - i,
    {
        if keys[i].0 == FSCRYPT_KEY_ID {
            proof {
                lemma_key_index(keys@, FSCRYPT_KEY_ID, i as int);
                assert(keys@.skip(i as int)[0] == keys@[i as int]);
            }
            return Some(keys[i].1.wrapping_key_id);
        }
        i += 1;
    }
    proof {
        lemma_key_index(keys@, FSCRYPT_KEY_ID, i as int);
    }
    None
}

/// The state of a file is put together from how often it is open and three marks, and says just these.
pub proof fn lemma_state_says_what_it_was_made_of(
    open_count: u64,
    to_be_purged: bool,
    in_graveyard: bool,
    dirty: bool,
)
    requires
        open_count <= 0x1fff_ffff_ffff_ffff,
    ensures
        ({
            let purge_bit = if to_be_purged {
                0x8000_0000_0000_0000u64
            } else {
                0
            };
            let graveyard_bit = if in_graveyard {
                0x4000_0000_0000_0000u64
            } else {
                0
            };
            let dirty_bit = if dirty {
                0x2000_0000_0000_0000u64
            } else {
                0
            };
            State(open_count | purge_bit | graveyard_bit | dirty_bit)@ == (StateView {
                open_count: open_count as int,
                to_be_purged,
                in_graveyard,
                dirty,
            })
        }),
{
    let p = if to_be_purged {
        0x8000_0000_0000_0000u64
    } else {
        0
    };
    let g = if in_graveyard {
        0x4000_0000_0000_0000u64
    } else {
        0
    };
    let d = if dirty {
        0x2000_0000_0000_0000u64
    } else {
        0
    };
    let all = open_count | p | g | d;
    assert(all & 0x1fff_ffff_ffff_ffffu64 == open_count && all & 0x8000_0000_0000_0000u64 == p && all
        & 0x4000_0000_0000_0000u64 == g && all & 0x2000_0000_0000_0000u64 == d) by (bit_vector)
        requires
            open_count <= 0x1fff_ffff_ffff_ffffu64,
            all == open_count | p | g | d,
            p == 0 || p == 0x8000_0000_0000_0000u64,
            g == 0 || g == 0x4000_0000_0000_0000u64,
            d == 0 || d == 0x2000_0000_0000_0000u64,
    ;
}

/// Closing a file gives up one open count.  Whether it is dirty is only looked at with the last of them: then it is
/// dirty exactly if there is something to flush and the file stays.  Nothing else of its state changes.
pub proof fn lemma_last_close_decides_about_flushing(state: StateView, needs_flush: bool)
    ensures
        ({
            let after = state_closed(state, needs_flush);
            let action = close_action(state, needs_flush);
            &&& after.open_count == state.open_count - 1
            &&& after.to_be_purged == state.to_be_purged
            &&& after.in_graveyard == state.in_graveyard
            &&& state.open_count > 1 ==> after.dirty == state.dirty && action == (CloseAction {
                take_reference: false,
                drop_reference: false,
                queue_tombstone: false,
            })
            &&& state.open_count == 1 && state.to_be_purged ==> !after.dirty && action.queue_tombstone
                && !action.take_reference && action.drop_reference == state.dirty
            &&& state.open_count == 1 && !state.to_be_purged ==> after.dirty == needs_flush
                && !action.queue_tombstone && action.take_reference == (needs_flush && !state.dirty)
                && action.drop_reference == (state.dirty && !needs_flush)
            &&& !(action.take_reference && action.drop_reference)
        }),
{
}

/// A file is gone exactly if it is marked to be purged and nobody has it open; it is an unnamed temporary file
/// exactly if it is so marked and lies in the graveyard for the time being.
pub proof fn lemma_deleted_and_temporary_files(state: StateView)
    ensures
        !state.to_be_purged ==> !state.tombstoned() && !state.unnamed_temporary(),
        state.open_count > 0 ==> !state.tombstoned(),
        state.to_be_purged && state.open_count == 0 ==> state.tombstoned(),
        !state.in_graveyard ==> !state.unnamed_temporary(),
        state.to_be_purged && state.in_graveyard ==> state.unnamed_temporary(),
{
}

/// A file that is opened as a temporary one is open once, is clean, lies in the graveyard and goes with its last
/// open count.
pub proof fn lemma_temporary_file_is_open_once()
    ensures
        temporary_state().open_count == 1,
        temporary_state().to_be_purged,
        temporary_state().in_graveyard,
        !temporary_state().dirty,
        state_closed(temporary_state(), true).tombstoned(),
{
}

/// Opening and closing leave the handle of a file, and how it is marked, alone; only the open count, and whether the
/// file is dirty, can change.  A file that is gone cannot be opened.
pub proof fn lemma_opening_and_closing_keep_the_file(before: FxFile, after: FxFile, closed: CloseAction)
    ensures
        after.is_opened(&before) ==> after.handle == before.handle && after.state@.open_count
            == before.state@.open_count + 1 && after.state@.to_be_purged == before.state@.to_be_purged
            && after.state@.in_graveyard == before.state@.in_graveyard && after.state@.dirty
            == before.state@.dirty,
        after.is_closed(&before, &closed) ==> after.handle == before.handle && after.state@.open_count
            == before.state@.open_count - 1 && after.state@.to_be_purged == before.state@.to_be_purged
            && after.state@.in_graveyard == before.state@.in_graveyard,
        after.is_closed(&before, &closed) && before.state@.open_count == 1 ==> closed.queue_tombstone
            == before.state@.to_be_purged,
        before.state@.to_be_purged && before.state@.open_count == 0 ==> !before.can_open(),
        !before.state@.to_be_purged && before.state@.open_count < 0x1fff_ffff_ffff_ffff
            ==> before.can_open(),
        before.spec_object_id() == before.handle.object_id,
        before.open_counts() == before.state@.open_count,
{
}

/// The index of a key is that of the first key with its ID, if there is one.
pub proof fn lemma_first_key_is_found(keys: Seq<(u64, FxfsKey)>, key_id: u64)
    ensures
        key_index(keys, key_id) <= keys.len(),
        key_index(keys, key_id) < keys.len() ==> keys[key_index(keys, key_id) as int].0 == key_id,
        forall|i: int| 0 <= i < key_index(keys, key_id) ==> (#[trigger] keys[i]).0 != key_id,
    decreases keys.len(),
{
    if keys.len() > 0 && keys[0].0 != key_id {
        let rest = keys.skip(1);
        lemma_first_key_is_found(rest, key_id);
        let index = key_index(keys, key_id);
        assert forall|i: int| 0 <= i < index implies (#[trigger] keys[i]).0 != key_id by {
            if i > 0 {
                assert(rest[i - 1] == keys[i]);
            }
        }
        if index < keys.len() {
            assert(rest[index - 1] == keys[index as int]);
        }
    }
}

/// A file can be opened unless it is deleted and no longer open, or open as often as can be counted; once more is then still
/// counted.  It takes no note of its parent.
pub proof fn lemma_files_that_can_be_opened(file: FxFile, opened: FxFile)
    ensures
        file.can_open() <==> !(file.state@.to_be_purged && file.state@.open_count == 0)
            && file.state@.open_count != MAX_OPEN_COUNTS,
        file.can_open() && opened.is_opened(&file) ==> opened.open_counts() <= MAX_OPEN_COUNTS,
        opened.is_opened(&file) ==> opened.open_counts() == file.open_counts() + 1,
        opened.is_opened(&file) ==> opened.state@.to_be_purged == file.state@.to_be_purged
            && opened.state@.in_graveyard == file.state@.in_graveyard && opened.state@.dirty == file.state@.dirty
            && opened.handle == file.handle,
        !file.knows_parent(),
        file.spec_object_id() == file.handle.object_id,
{
    let bits = file.state.0;
    assert(bits & MAX_OPEN_COUNTS <= MAX_OPEN_COUNTS) by (bit_vector);
}

} // verus!
