//! The root volume, which holds references to all other volumes.
//!
//! Volumes are a grouping of an object store and a root directory within this object store. They
//! model a hierarchical tree of objects within a single store.
//!
//! Typically there will be one root volume which is referenced directly by the superblock. This root
//! volume stores references to all other volumes on the system (as volumes/foo, volumes/bar, ...).
//! For now, this hierarchy is only one deep.
use crate::errors::FxfsError;
use crate::lexicographic::{lemma_lex_total, lemma_lex_transitive};
use crate::lock_keys::{LockKey, LockKeys};
use crate::object_record::{ObjectDescriptor, INVALID_OBJECT_ID};
use crate::object_store::ObjectStore;
use crate::store_info::StoreInfo;
use crate::text::{code_points_of, is_text_before, same_text, text_lt};
use vstd::prelude::*;

verus! {

pub const VOLUMES_DIRECTORY: &'static str = "volumes";

/// An entry of the volume directory.
#[derive(Debug)]
pub struct VolumeEntry {
    pub name: String,
    pub object_id: u64,
    pub descriptor: ObjectDescriptor,
}

/// The content of an entry.
pub struct EntryView {
    pub name: Seq<char>,
    pub object_id: u64,
    pub descriptor: ObjectDescriptor,
}

impl View for VolumeEntry {
    type V = EntryView;

    open spec fn view(&self) -> EntryView {
        EntryView { name: self.name@, object_id: self.object_id, descriptor: self.descriptor }
    }
}

/// The entry at `index` has that name.
pub open spec fn is_named(entries: Seq<EntryView>, index: int, name: Seq<char>) -> bool {
    0 <= index < entries.len() && entries[index].name == name
}

/// The object with that name, if there is one.
pub open spec fn lookup_in(entries: Seq<EntryView>, name: Seq<char>) -> Option<
    (u64, ObjectDescriptor),
> {
    if exists|i: int| is_named(entries, i, name) {
        let i = choose|i: int| is_named(entries, i, name);
        Some((entries[i].object_id, entries[i].descriptor))
    } else {
        None
    }
}

/// Each name comes before those that stand after it, so that there is one entry of each name.
pub open spec fn is_ordered(entries: Seq<EntryView>) -> bool {
    forall|i: int, j: int|
        0 <= i < j < entries.len() ==> text_lt(
            (#[trigger] entries[i]).name,
            (#[trigger] entries[j]).name,
        )
}

proof fn lemma_lookup(entries: Seq<EntryView>, index: int)
    requires
        is_ordered(entries),
        0 <= index < entries.len(),
    ensures
        lookup_in(entries, entries[index].name) == Some(
            (entries[index].object_id, entries[index].descriptor),
        ),
{
    let name = entries[index].name;
    assert(is_named(entries, index, name));
    let i = choose|i: int| is_named(entries, i, name);
    lemma_lex_total(code_points_of(name), code_points_of(name));
    if i < index {
        assert(text_lt(entries[i].name, entries[index].name));
    } else if index < i {
        assert(text_lt(entries[index].name, entries[i].name));
    }
}

/// The directory of the root volume, in which each volume has an entry.
#[derive(Debug)]
pub struct VolumeDirectory {
    object_id: u64,
    entries: Vec<VolumeEntry>,
}

impl View for VolumeDirectory {
    type V = Seq<EntryView>;

    closed spec fn view(&self) -> Seq<EntryView> {
        self.entries@.map_values(|entry: VolumeEntry| entry@)
    }
}

impl VolumeDirectory {
    pub open spec fn wf(self) -> bool {
        is_ordered(self@)
    }

    /// The object that holds the directory.
    pub closed spec fn spec_object_id(self) -> u64 {
        self.object_id
    }

    pub fn new(object_id: u64) -> (directory: Self)
        ensures
            directory.wf(),
            directory@ == Seq::<EntryView>::empty(),
            directory.spec_object_id() == object_id,
    {
        let directory = VolumeDirectory { object_id, entries: Vec::new() };
        assert(directory@ =~= Seq::<EntryView>::empty());
        directory
    }

    pub fn object_id(&self) -> (id: u64)
        ensures
            id == self.spec_object_id(),
    {
        self.object_id
    }

    /// Returns the object with that name.
    pub fn lookup(&self, name: &str) -> (found: Option<(u64, ObjectDescriptor)>)
        requires
            self.wf(),
        ensures
            found == lookup_in(self@, name@),
    {
        let len: usize = self.entries.len();
        let mut i: usize = 0;
        while i < len
            invariant
                i <= len,
                len == self.entries@.len(),
                len == self@.len(),
                self.wf(),
                forall|j: int| 0 <= j < i ==> !is_named(self@, j, name@),
            decreases len - i,
        {
            if same_text(self.entries[i].name.as_str(), name) {
                proof {
                    assert(self@[i as int] == self.entries@[i as int]@);
                    lemma_lookup(self@, i as int);
                }
                return Some((self.entries[i].object_id, self.entries[i].descriptor));
            }
            assert(self@[i as int] == self.entries@[i as int]@);
            i += 1;
        }
        None
    }

    /// Adds an entry, whose name must be new.
    pub fn add(&mut self, name: &str, object_id: u64, descriptor: ObjectDescriptor)
        requires
            old(self).wf(),
            lookup_in(old(self)@, name@) is None,
        ensures
            final(self).wf(),
            final(self).spec_object_id() == old(self).spec_object_id(),
            forall|other: Seq<char>| #[trigger]
                lookup_in(final(self)@, other) == (if other == name@ {
                    Some((object_id, descriptor))
                } else {
                    lookup_in(old(self)@, other)
                }),
            final(self)@.len() == old(self)@.len() + 1,
    {
        let ghost before = self@;
        let len: usize = self.entries.len();
        let mut at: usize = 0;
        while at < len && is_text_before(self.entries[at].name.as_str(), name)
            invariant
                at <= len,
                len == self.entries@.len(),
                self@ == before,
                before.len() == len,
                forall|i: int| 0 <= i < at ==> text_lt((#[trigger] before[i]).name, name@),
            decreases len - at,
        {
            assert(before[at as int] == self.entries@[at as int]@);
            at += 1;
        }
        let entry = VolumeEntry { name: name.to_owned(), object_id, descriptor };
        let ghost put = entry@;
        proof {
            if at < len {
                assert(before[at as int] == self.entries@[at as int]@);
            }
        }
        self.entries.insert(at, entry);
        proof {
            assert(self@ =~= before.insert(at as int, put));
            lemma_insert_ordered(before, at as int, put);
        }
    }

    /// Removes the entry of that name.
    pub fn remove(&mut self, name: &str)
        requires
            old(self).wf(),
        ensures
            final(self).wf(),
            final(self).spec_object_id() == old(self).spec_object_id(),
            forall|other: Seq<char>| #[trigger]
                lookup_in(final(self)@, other) == (if other == name@ {
                    None
                } else {
                    lookup_in(old(self)@, other)
                }),
    {
        let ghost before = self@;
        let len: usize = self.entries.len();
        let mut i: usize = 0;
        while i < len
            invariant
                i <= len,
                len == self.entries@.len(),
                len == self@.len(),
                self.wf(),
                before == self@,
                self.object_id == old(self).object_id,
                before == old(self)@,
                forall|j: int| 0 <= j < i ==> !is_named(before, j, name@),
            decreases len - i,
        {
            assert(before[i as int] == self.entries@[i as int]@);
            if same_text(self.entries[i].name.as_str(), name) {
                let _ = self.entries.remove(i);
                proof {
                    assert(self@ =~= before.remove(i as int));
                    lemma_remove_ordered(before, i as int);
                }
                return;
            }
            i += 1;
        }
        proof {
            assert forall|j: int| !is_named(before, j, name@) by {}
        }
    }
}

proof fn lemma_insert_ordered(entries: Seq<EntryView>, at: int, entry: EntryView)
    requires
        is_ordered(entries),
        lookup_in(entries, entry.name) is None,
        0 <= at <= entries.len(),
        forall|i: int| 0 <= i < at ==> text_lt((#[trigger] entries[i]).name, entry.name),
        at < entries.len() ==> !text_lt(entries[at].name, entry.name),
    ensures
        is_ordered(entries.insert(at, entry)),
        forall|other: Seq<char>| #[trigger]
            lookup_in(entries.insert(at, entry), other) == (if other == entry.name {
                Some((entry.object_id, entry.descriptor))
            } else {
                lookup_in(entries, other)
            }),
{
    let longer = entries.insert(at, entry);
    assert forall|i: int, j: int| 0 <= i < j < longer.len() implies text_lt(
        (#[trigger] longer[i]).name,
        (#[trigger] longer[j]).name,
    ) by {
        if i == at {
            assert(longer[j] == entries[j - 1]);
            assert(!is_named(entries, at, entry.name));
            lemma_code_points_injective(entries[at].name, entry.name);
            lemma_lex_total(code_points_of(entries[at].name), code_points_of(entry.name));
            if at < j - 1 {
                assert(text_lt(entries[at].name, entries[j - 1].name));
                lemma_lex_transitive(
                    code_points_of(entry.name),
                    code_points_of(entries[at].name),
                    code_points_of(entries[j - 1].name),
                );
            }
        } else if j == at {
            assert(longer[i] == entries[i]);
        } else {
            let a = if i < at {
                i
            } else {
                i - 1
            };
            let b = if j < at {
                j
            } else {
                j - 1
            };
            assert(longer[i] == entries[a] && longer[j] == entries[b]);
        }
    }
    assert forall|other: Seq<char>| #[trigger] lookup_in(longer, other) == (if other == entry.name {
        Some((entry.object_id, entry.descriptor))
    } else {
        lookup_in(entries, other)
    }) by {
        if other == entry.name {
            assert(longer[at] == entry);
            lemma_lookup(longer, at);
        } else if exists|i: int| is_named(entries, i, other) {
            let i = choose|i: int| is_named(entries, i, other);
            let k = if i < at {
                i
            } else {
                i + 1
            };
            assert(longer[k] == entries[i]);
            lemma_lookup(longer, k);
            lemma_lookup(entries, i);
        } else {
            assert forall|k: int| !is_named(longer, k, other) by {
                if is_named(longer, k, other) {
                    if k < at {
                        assert(is_named(entries, k, other));
                    } else if k > at {
                        assert(is_named(entries, k - 1, other));
                    }
                }
            }
        }
    }
}

proof fn lemma_remove_ordered(entries: Seq<EntryView>, at: int)
    requires
        is_ordered(entries),
        0 <= at < entries.len(),
    ensures
        is_ordered(entries.remove(at)),
        forall|other: Seq<char>| #[trigger]
            lookup_in(entries.remove(at), other) == (if other == entries[at].name {
                None
            } else {
                lookup_in(entries, other)
            }),
{
    let shorter = entries.remove(at);
    assert forall|i: int, j: int| 0 <= i < j < shorter.len() implies text_lt(
        (#[trigger] shorter[i]).name,
        (#[trigger] shorter[j]).name,
    ) by {
        let a = if i < at {
            i
        } else {
            i + 1
        };
        let b = if j < at {
            j
        } else {
            j + 1
        };
        assert(shorter[i] == entries[a] && shorter[j] == entries[b]);
    }
    assert forall|other: Seq<char>| #[trigger]
        lookup_in(shorter, other) == (if other == entries[at].name {
            None
        } else {
            lookup_in(entries, other)
        }) by {
        if other == entries[at].name {
            lemma_lex_total(code_points_of(other), code_points_of(other));
            assert forall|k: int| !is_named(shorter, k, other) by {
                if is_named(shorter, k, other) {
                    if k < at {
                        assert(text_lt(entries[k].name, entries[at].name));
                    } else {
                        assert(text_lt(entries[at].name, entries[k + 1].name));
                    }
                }
            }
        } else if exists|i: int| is_named(entries, i, other) {
            let i = choose|i: int| is_named(entries, i, other);
            let k = if i < at {
                i
            } else {
                i - 1
            };
            assert(shorter[k] == entries[i]);
            lemma_lookup(shorter, k);
            lemma_lookup(entries, i);
        } else {
            assert forall|k: int| !is_named(shorter, k, other) by {
                if is_named(shorter, k, other) {
                    if k < at {
                        assert(is_named(entries, k, other));
                    } else {
                        assert(is_named(entries, k + 1, other));
                    }
                }
            }
        }
    }
}

proof fn lemma_char_injective(a: char, b: char)
    ensures
        a as u64 == b as u64 ==> a == b,
{
}

proof fn lemma_code_points_injective(a: Seq<char>, b: Seq<char>)
    ensures
        code_points_of(a) == code_points_of(b) ==> a == b,
{
    if code_points_of(a) == code_points_of(b) {
        assert(code_points_of(a).len() == a.len() && code_points_of(b).len() == b.len());
        assert forall|i: int| 0 <= i < a.len() implies a[i] == b[i] by {
            assert(code_points_of(a)[i] == code_points_of(b)[i]);
            lemma_char_injective(a[i], b[i]);
        }
        assert(a =~= b);
    }
}

/// The store of a volume: where it is among the stores, and whether it is to be unlocked.
#[derive(Clone, Copy, Debug, PartialEq, Eq, Structural)]
pub struct OpenVolume {
    pub store: usize,
    pub unlock: bool,
}

/// The index of the first store with that ID, or the number of stores.
pub open spec fn store_index(stores: Seq<ObjectStore>, object_id: u64) -> nat
    decreases stores.len(),
{
    if stores.len() == 0 || stores[0].store_object_id == object_id {
        0
    } else {
        1 + store_index(stores.skip(1), object_id)
    }
}

proof fn lemma_store_index(stores: Seq<ObjectStore>, object_id: u64, count: int)
    requires
        0 <= count <= stores.len(),
        forall|i: int| 0 <= i < count ==> (#[trigger] stores[i]).store_object_id != object_id,
        count == stores.len() || stores[count].store_object_id == object_id,
    ensures
        store_index(stores, object_id) == count,
    decreases count,
{
    if count > 0 {
        let rest = stores.skip(1);
        assert(stores[0].store_object_id != object_id);
        assert forall|i: int| 0 <= i < count - 1 implies (#[trigger] rest[i]).store_object_id
            != object_id by {
            assert(rest[i] == stores[i + 1]);
        }
        lemma_store_index(rest, object_id, count - 1);
    }
}

/// RootVolume is the top-level volume which stores references to all of the other Volumes.
#[derive(Debug)]
pub struct RootVolume {
    pub root_store_object_id: u64,
    pub volume_directory: VolumeDirectory,
}

impl RootVolume {
    pub fn volume_directory(&self) -> (directory: &VolumeDirectory)
        ensures
            *directory == self.volume_directory,
    {
        &self.volume_directory
    }

    /// Returns what is locked while a volume is created: the volume directory.
    pub fn new_volume_lock_keys(&self) -> (keys: LockKeys)
        ensures
            keys@ == seq![
                LockKey::Object {
                    store_object_id: self.root_store_object_id,
                    object_id: self.volume_directory.spec_object_id(),
                },
            ],
    {
        let mut keys = LockKeys::with_capacity(1);
        keys.push(LockKey::object(self.root_store_object_id, self.volume_directory.object_id()));
        assert(keys@ =~= seq![
            LockKey::Object {
                store_object_id: self.root_store_object_id,
                object_id: self.volume_directory.spec_object_id(),
            },
        ]);
        keys
    }

    /// Adds a new volume, whose store is `store_object_id`, unless there is one of that name.
    pub fn new_volume(&mut self, volume_name: &str, store_object_id: u64) -> (added: Result<
        (),
        FxfsError,
    >)
        requires
            old(self).volume_directory.wf(),
        ensures
            final(self).volume_directory.wf(),
            final(self).root_store_object_id == old(self).root_store_object_id,
            final(self).volume_directory.spec_object_id()
                == old(self).volume_directory.spec_object_id(),
            match added {
                Ok(_) => {
                    &&& lookup_in(old(self).volume_directory@, volume_name@) is None
                    &&& forall|name: Seq<char>| #[trigger]
                        lookup_in(final(self).volume_directory@, name) == (if name == volume_name@ {
                            Some((store_object_id, ObjectDescriptor::Volume))
                        } else {
                            lookup_in(old(self).volume_directory@, name)
                        })
                    &&& final(self).find_volume(volume_name@) == Result::<u64, FxfsError>::Ok(
                        store_object_id,
                    )
                },
                Err(error) => {
                    &&& error == FxfsError::AlreadyExists
                    &&& lookup_in(old(self).volume_directory@, volume_name@) is Some
                    &&& final(self).volume_directory@ == old(self).volume_directory@
                },
            },
    {
        if self.volume_directory.lookup(volume_name).is_some() {
            return Err(FxfsError::AlreadyExists);
        }
        self.volume_directory.add(volume_name, store_object_id, ObjectDescriptor::Volume);
        Ok(())
    }

    /// The store of that name, or why there is none.
    pub open spec fn find_volume(self, volume_name: Seq<char>) -> Result<u64, FxfsError> {
        match lookup_in(self.volume_directory@, volume_name) {
            None => Err(FxfsError::NotFound),
            Some((object_id, ObjectDescriptor::Volume)) => Ok(object_id),
            Some(_) => Err(FxfsError::Inconsistent),
        }
    }

    fn volume_object_id(&self, volume_name: &str) -> (object_id: Result<u64, FxfsError>)
        requires
            self.volume_directory.wf(),
        ensures
            object_id == self.find_volume(volume_name@),
    {
        match self.volume_directory.lookup(volume_name) {
            None => Err(FxfsError::NotFound),
            Some((object_id, ObjectDescriptor::Volume)) => Ok(object_id),
            Some(_) => Err(FxfsError::Inconsistent),
        }
    }

    /// The volume with the given name, one of `stores`, or why it cannot be had.
    pub open spec fn opens_volume(
        self,
        volume_name: Seq<char>,
        stores: Seq<ObjectStore>,
        crypt: bool,
    ) -> Result<OpenVolume, FxfsError> {
        match self.find_volume(volume_name) {
            Err(error) => Err(error),
            Ok(object_id) => {
                let index = store_index(stores, object_id);
                if index == stores.len() {
                    Err(FxfsError::NotFound)
                } else if !crypt && stores[index as int].spec_is_locked() {
                    Err(FxfsError::AccessDenied)
                } else {
                    Ok(OpenVolume { store: index as usize, unlock: crypt })
                }
            },
        }
    }

    /// Returns the volume with the given name, one of `stores`.  It is to be unlocked if the caller has the
    /// means to do so (`crypt`); a caller that has not gets no locked volume.
    pub fn volume(&self, volume_name: &str, stores: &Vec<ObjectStore>, crypt: bool) -> (volume: Result<
        OpenVolume,
        FxfsError,
    >)
        requires
            self.volume_directory.wf(),
        ensures
            volume == self.opens_volume(volume_name@, stores@, crypt),
            volume == (match self.find_volume(volume_name@) {
                Err(error) => Err::<OpenVolume, FxfsError>(error),
                Ok(object_id) => {
                    let index = store_index(stores@, object_id);
                    if index == stores@.len() {
                        Err(FxfsError::NotFound)
                    } else if !crypt && stores@[index as int].spec_is_locked() {
                        Err(FxfsError::AccessDenied)
                    } else {
                        Ok(OpenVolume { store: index as usize, unlock: crypt })
                    }
                },
            }),
    {
        let object_id: u64 = match self.volume_object_id(volume_name) {
            Ok(object_id) => object_id,
            Err(error) => {
                return Err(error);
            },
        };
        let len: usize = stores.len();
        let mut i: usize = 0;
        while i < len
            invariant
                i <= len,
                len == stores@.len(),
                self.find_volume(volume_name@) == Result::<u64, FxfsError>::Ok(object_id),
                forall|j: int|
                    0 <= j < i ==> (#[trigger] stores@[j]).store_object_id != object_id,
            decreases len - i,
        {
            if stores[i].store_object_id() == object_id {
                proof {
                    lemma_store_index(stores@, object_id, i as int);
                }
                if !crypt && stores[i].is_locked() {
                    return Err(FxfsError::AccessDenied);
                }
                return Ok(OpenVolume { store: i, unlock: crypt });
            }
            i += 1;
        }
        proof {
            lemma_store_index(stores@, object_id, i as int);
        }
        Err(FxfsError::NotFound)
    }

    /// Deletes the given volume.  Returns the object of its store.
    pub fn delete_volume(&mut self, volume_name: &str) -> (deleted: Result<u64, FxfsError>)
        requires
            old(self).volume_directory.wf(),
        ensures
            final(self).volume_directory.wf(),
            final(self).root_store_object_id == old(self).root_store_object_id,
            final(self).volume_directory.spec_object_id()
                == old(self).volume_directory.spec_object_id(),
            deleted == old(self).find_volume(volume_name@),
            match deleted {
                Ok(_) => {
                    &&& forall|name: Seq<char>| #[trigger]
                        lookup_in(final(self).volume_directory@, name) == (if name == volume_name@ {
                            None
                        } else {
                            lookup_in(old(self).volume_directory@, name)
                        })
                    &&& final(self).find_volume(volume_name@) == Result::<u64, FxfsError>::Err(
                        FxfsError::NotFound,
                    )
                },
                Err(_) => final(self).volume_directory@ == old(self).volume_directory@,
            },
    {
        let object_id: u64 = match self.volume_object_id(volume_name) {
            Ok(object_id) => object_id,
            Err(error) => {
                return Err(error);
            },
        };
        self.volume_directory.remove(volume_name);
        Ok(object_id)
    }
}

/// Returns the objects of the root store that go with a volume: the layers and encrypted mutations of its
/// store, and the object of the store itself.
pub fn objects_to_delete(info: &StoreInfo, object_id: u64) -> (objects: Vec<u64>)
    ensures
        objects@ == info.spec_parent_objects().push(object_id),
        objects@ == (if info.encrypted_mutations_object_id != INVALID_OBJECT_ID {
            info.layers@.push(info.encrypted_mutations_object_id)
        } else {
            info.layers@
        }).push(object_id),
{
    let mut objects = info.parent_objects();
    objects.push(object_id);
    objects
}

/// Returns the object IDs for all volumes, in the order of their names.
pub fn list_volumes(volume_directory: &VolumeDirectory) -> (object_ids: Vec<u64>)
    ensures
        object_ids@ == volume_directory@.map_values(|entry: EntryView| entry.object_id),
{
    let len: usize = volume_directory.entries.len();
    let mut object_ids: Vec<u64> = Vec::new();
    let mut i: usize = 0;
    while i < len
        invariant
            i <= len,
            len == volume_directory.entries@.len(),
            object_ids@.len() == i,
            forall|j: int|
                0 <= j < i ==> #[trigger] object_ids@[j] == volume_directory.entries@[j].object_id,
        decreases len - i,
    {
        object_ids.push(volume_directory.entries[i].object_id);
        i += 1;
    }
    assert(object_ids@ =~= volume_directory@.map_values(|entry: EntryView| entry.object_id));
    object_ids
}

/// Looking up a name finds the entry of that name and what it says, exactly if there is one.
pub proof fn lemma_names_are_looked_up(entries: Seq<EntryView>, index: int, name: Seq<char>)
    requires
        is_ordered(entries),
    ensures
        0 <= index < entries.len() && entries[index].name == name ==> lookup_in(entries, name) == Some(
            (entries[index].object_id, entries[index].descriptor),
        ),
        (forall|i: int| 0 <= i < entries.len() ==> (#[trigger] entries[i]).name != name) ==> lookup_in(
            entries,
            name,
        ) is None,
{
    if 0 <= index < entries.len() {
        lemma_lookup(entries, index);
    }
}

/// The store of an object is the first one that is kept in it, if there is any.
pub proof fn lemma_first_store_is_found(stores: Seq<ObjectStore>, object_id: u64)
    ensures
        store_index(stores, object_id) <= stores.len(),
        store_index(stores, object_id) < stores.len() ==> stores[store_index(
            stores,
            object_id,
        ) as int].store_object_id == object_id,
        forall|i: int|
            0 <= i < store_index(stores, object_id) ==> (#[trigger] stores[i]).store_object_id
                != object_id,
    decreases stores.len(),
{
    if stores.len() > 0 && stores[0].store_object_id != object_id {
        let rest = stores.skip(1);
        lemma_first_store_is_found(rest, object_id);
        let index = store_index(stores, object_id);
        assert forall|i: int| 0 <= i < index implies (#[trigger] stores[i]).store_object_id
            != object_id by {
            if i > 0 {
                assert(rest[i - 1] == stores[i]);
            }
        }
        if index < stores.len() {
            assert(rest[index - 1] == stores[index as int]);
        }
    }
}

/// Only a volume is found as one: what has no entry is not found, and an entry of another kind is inconsistent.
pub proof fn lemma_only_volumes_are_volumes(root: RootVolume, name: Seq<char>)
    ensures
        lookup_in(root.volume_directory@, name) is None ==> root.find_volume(name) == Result::<
            u64,
            FxfsError,
        >::Err(FxfsError::NotFound),
        lookup_in(root.volume_directory@, name) matches Some((object_id, descriptor)) ==> {
            &&& descriptor == ObjectDescriptor::Volume ==> root.find_volume(name) == Result::<
                u64,
                FxfsError,
            >::Ok(object_id)
            &&& descriptor != ObjectDescriptor::Volume ==> root.find_volume(name) == Result::<
                u64,
                FxfsError,
            >::Err(FxfsError::Inconsistent)
        },
{
}

/// A locked volume is had only by those that can unlock it; everybody else is denied it.  A volume is had with the
/// store that its entry names.
pub proof fn lemma_locked_volumes_need_a_key(
    root: RootVolume,
    name: Seq<char>,
    stores: Seq<ObjectStore>,
    crypt: bool,
)
    requires
        stores.len() <= usize::MAX,
    ensures
        ({
            let opened = root.opens_volume(name, stores, crypt);
            &&& root.find_volume(name) matches Err(error) ==> opened == Result::<
                OpenVolume,
                FxfsError,
            >::Err(error)
            &&& opened matches Ok(volume) ==> {
                &&& volume.store < stores.len()
                &&& root.find_volume(name) == Result::<u64, FxfsError>::Ok(
                    stores[volume.store as int].store_object_id,
                )
                &&& volume.unlock == crypt
                &&& stores[volume.store as int].spec_is_locked() ==> crypt
            }
            &&& crypt && (root.find_volume(name) matches Ok(object_id) && exists|i: int|
                0 <= i < stores.len() && (#[trigger] stores[i]).store_object_id == object_id) ==> opened is Ok
            &&& opened == Result::<OpenVolume, FxfsError>::Err(FxfsError::AccessDenied) ==> !crypt
        }),
{
    if let Ok(object_id) = root.find_volume(name) {
        lemma_first_store_is_found(stores, object_id);
    }
}

} // verus!
