//! Changing the attributes of objects.
use crate::object_record::{
    ObjectAttributes, ObjectItem, ObjectValue, PosixAttributes, Timestamp,
};
use crate::transaction::ObjectStoreMutation;
use vstd::prelude::*;

verus! {

/// Changes to the attributes of a node; what is none stays as it is.
#[derive(Clone, Copy, Debug, PartialEq, Eq, Structural)]
pub struct MutableNodeAttributes {
    pub creation_time: Option<u64>,
    pub modification_time: Option<u64>,
    pub access_time: Option<u64>,
    pub mode: Option<u32>,
    pub uid: Option<u32>,
    pub gid: Option<u32>,
    pub rdev: Option<u64>,
    /// Attributes change that are not kept with the others.
    pub others: bool,
}

impl Default for MutableNodeAttributes {
    fn default() -> (attributes: Self)
        ensures
            attributes.is_empty(),
    {
        MutableNodeAttributes {
            creation_time: None,
            modification_time: None,
            access_time: None,
            mode: None,
            uid: None,
            gid: None,
            rdev: None,
            others: false,
        }
    }
}

/// `change`, or what was there if there is none.
pub open spec fn changed<T>(change: Option<T>, was: T) -> T {
    match change {
        Some(value) => value,
        None => was,
    }
}

impl MutableNodeAttributes {
    /// Nothing changes.
    pub open spec fn is_empty(self) -> bool {
        &&& self.creation_time is None
        &&& self.modification_time is None
        &&& self.access_time is None
        &&& !self.changes_posix()
        &&& !self.others
    }

    /// Attributes change that only POSIX knows.
    pub open spec fn changes_posix(self) -> bool {
        self.mode is Some || self.uid is Some || self.gid is Some || self.rdev is Some
    }

    /// The POSIX attributes that the change leads to.  Those that an object does not have yet start
    /// from zero.
    pub open spec fn changed_posix(self, was: Option<PosixAttributes>) -> Option<PosixAttributes> {
        if self.changes_posix() {
            let was = changed(was, PosixAttributes { mode: 0, uid: 0, gid: 0, rdev: 0 });
            Some(
                PosixAttributes {
                    mode: changed(self.mode, was.mode),
                    uid: changed(self.uid, was.uid),
                    gid: changed(self.gid, was.gid),
                    rdev: changed(self.rdev, was.rdev),
                },
            )
        } else {
            was
        }
    }

    /// The attributes that the change leads to.
    pub open spec fn changed_attributes(self, was: ObjectAttributes) -> ObjectAttributes {
        ObjectAttributes {
            creation_time: changed_time(self.creation_time, was.creation_time),
            modification_time: changed_time(self.modification_time, was.modification_time),
            access_time: changed_time(self.access_time, was.access_time),
            posix_attributes: self.changed_posix(was.posix_attributes),
            ..was
        }
    }
}

/// The time that a change in nanoseconds leads to.
pub open spec fn changed_time(change: Option<u64>, was: Timestamp) -> Timestamp {
    match change {
        Some(nanos) => Timestamp { nanos },
        None => was,
    }
}

/// The attributes that a change, and a change time, lead to.
pub open spec fn attributes_after(
    was: ObjectAttributes,
    node_attributes: Option<MutableNodeAttributes>,
    change_time: Option<Timestamp>,
) -> ObjectAttributes {
    let was = ObjectAttributes { change_time: changed(change_time, was.change_time), ..was };
    match node_attributes {
        Some(change) => change.changed_attributes(was),
        None => was,
    }
}

/// Nothing is to be changed.
pub open spec fn spec_no_change(
    node_attributes: Option<MutableNodeAttributes>,
    change_time: Option<Timestamp>,
) -> bool {
    change_time is None && (node_attributes matches Some(change) ==> change.is_empty())
}

/// Returns whether nothing is to be changed.
pub fn no_change(
    node_attributes: &Option<MutableNodeAttributes>,
    change_time: &Option<Timestamp>,
) -> (nothing: bool)
    ensures
        nothing == spec_no_change(*node_attributes, *change_time),
{
    if change_time.is_some() {
        return false;
    }
    match node_attributes {
        None => true,
        Some(change) => {
            change.creation_time.is_none() && change.modification_time.is_none()
                && change.access_time.is_none() && change.mode.is_none() && change.uid.is_none()
                && change.gid.is_none() && change.rdev.is_none() && !change.others
        },
    }
}

/// Changes attributes.
pub fn apply_attributes(
    attributes: &mut ObjectAttributes,
    node_attributes: &Option<MutableNodeAttributes>,
    change_time: &Option<Timestamp>,
)
    ensures
        *final(attributes) == attributes_after(*old(attributes), *node_attributes, *change_time),
{
    if let Some(time) = change_time {
        attributes.change_time = *time;
    }
    if let Some(change) = node_attributes {
        if let Some(time) = change.creation_time {
            attributes.creation_time = Timestamp::from_nanos(time);
        }
        if let Some(time) = change.modification_time {
            attributes.modification_time = Timestamp::from_nanos(time);
        }
        if let Some(time) = change.access_time {
            attributes.access_time = Timestamp::from_nanos(time);
        }
        if change.mode.is_some() || change.uid.is_some() || change.gid.is_some()
            || change.rdev.is_some() {
            let mut posix = match attributes.posix_attributes {
                Some(posix) => posix,
                None => PosixAttributes { mode: 0, uid: 0, gid: 0, rdev: 0 },
            };
            if let Some(mode) = change.mode {
                posix.mode = mode;
            }
            if let Some(uid) = change.uid {
                posix.uid = uid;
            }
            if let Some(gid) = change.gid {
                posix.gid = gid;
            }
            if let Some(rdev) = change.rdev {
                posix.rdev = rdev;
            }
            attributes.posix_attributes = Some(posix);
        }
    }
}

/// `mutation`, of an object, with other attributes.
pub open spec fn with_attributes(
    mutation: ObjectStoreMutation,
    attributes: ObjectAttributes,
) -> ObjectStoreMutation {
    ObjectStoreMutation {
        item: ObjectItem {
            value: ObjectValue::Object { kind: mutation.item.value->Object_kind, attributes },
            ..mutation.item
        },
        ..mutation
    }
}

/// Gives the object of `mutation` other attributes.
pub fn set_attributes(mutation: ObjectStoreMutation, attributes: ObjectAttributes) -> (changed:
    ObjectStoreMutation)
    requires
        mutation.item.value is Object,
    ensures
        changed == with_attributes(mutation, attributes),
{
    let op = mutation.op;
    let ObjectItem { key, value, sequence } = mutation.item;
    let value = match value {
        ObjectValue::Object { kind, .. } => ObjectValue::Object { kind, attributes },
        value => value,
    };
    ObjectStoreMutation { item: ObjectItem { key, value, sequence }, op }
}

/// The change of an access time to `now`, and nothing else.
pub open spec fn access_time_change(now: Timestamp) -> MutableNodeAttributes {
    MutableNodeAttributes {
        creation_time: None,
        modification_time: None,
        access_time: Some(now.nanos),
        mode: None,
        uid: None,
        gid: None,
        rdev: None,
        others: false,
    }
}

/// A day, in nanoseconds.
pub const DAY_NANOS: u64 = 86_400_000_000_000;

/// The last access came before the last change, or more than a day ago.
pub open spec fn spec_should_update_access_time(
    access_time: Timestamp,
    modification_time: Timestamp,
    change_time: Timestamp,
    now: Timestamp,
) -> bool {
    access_time.nanos <= modification_time.nanos || access_time.nanos <= change_time.nanos || now.nanos
        - access_time.nanos > DAY_NANOS
}

/// Returns whether the access time is to be set to `now`.  This matches Linux's RELATIME: that is,
/// access time is updated if access time is less than or equal to the last modification or status
/// change, or if it has been more than a day since the last access.
pub fn should_update_access_time(
    access_time: Timestamp,
    modification_time: Timestamp,
    change_time: Timestamp,
    now: Timestamp,
) -> (should: bool)
    requires
        now.nanos >= DAY_NANOS,
    ensures
        should == spec_should_update_access_time(access_time, modification_time, change_time, now),
{
    access_time.as_nanos() <= modification_time.as_nanos() || access_time.as_nanos()
        <= change_time.as_nanos() || access_time.as_nanos() < now.as_nanos() - DAY_NANOS
}

/// Changing attributes twice in the same way is the same as changing them once.
pub proof fn lemma_change_is_idempotent(
    was: ObjectAttributes,
    node_attributes: Option<MutableNodeAttributes>,
    change_time: Option<Timestamp>,
)
    ensures
        ({
            let once = attributes_after(was, node_attributes, change_time);
            attributes_after(once, node_attributes, change_time) == once
        }),
{
}

/// A change that is empty changes nothing, and no change touches the project or the allocated size.
pub proof fn lemma_change_keeps_the_rest(
    was: ObjectAttributes,
    node_attributes: Option<MutableNodeAttributes>,
    change_time: Option<Timestamp>,
)
    ensures
        spec_no_change(node_attributes, change_time) ==> attributes_after(
            was,
            node_attributes,
            change_time,
        ) == was,
        attributes_after(was, node_attributes, change_time).project_id == was.project_id,
        attributes_after(was, node_attributes, change_time).allocated_size == was.allocated_size,
{
}

/// Each attribute changes by itself: one that the change sets has the value that the change gives for it,
/// and one that it does not set is as it was.
pub proof fn lemma_each_attribute_changes_by_itself(
    was: ObjectAttributes,
    change: MutableNodeAttributes,
    change_time: Option<Timestamp>,
)
    ensures
        ({
            let after = attributes_after(was, Some(change), change_time);
            &&& change.creation_time matches Some(time) ==> after.creation_time.nanos == time
            &&& change.creation_time is None ==> after.creation_time == was.creation_time
            &&& change.modification_time matches Some(time) ==> after.modification_time.nanos == time
            &&& change.modification_time is None ==> after.modification_time
                == was.modification_time
            &&& change.access_time matches Some(time) ==> after.access_time.nanos == time
            &&& change.access_time is None ==> after.access_time == was.access_time
            &&& change_time matches Some(time) ==> after.change_time == time
            &&& change_time is None ==> after.change_time == was.change_time
            &&& after.project_id == was.project_id
            &&& after.allocated_size == was.allocated_size
        }),
{
}

/// Each attribute that only POSIX knows changes by itself.  An object that has none of them gets them all
/// as soon as one is set, and those that are not set are zero; if none is set, they are as they were.
pub proof fn lemma_each_posix_attribute_changes_by_itself(
    was: ObjectAttributes,
    change: MutableNodeAttributes,
    change_time: Option<Timestamp>,
)
    ensures
        ({
            let after = attributes_after(was, Some(change), change_time).posix_attributes;
            let before = was.posix_attributes;
            &&& change.mode is None && change.uid is None && change.gid is None && change.rdev is None
                ==> after == before
            &&& change.mode is Some || change.uid is Some || change.gid is Some || change.rdev is Some
                ==> after is Some
            &&& change.mode matches Some(mode) ==> after->0.mode == mode
            &&& change.uid matches Some(uid) ==> after->0.uid == uid
            &&& change.gid matches Some(gid) ==> after->0.gid == gid
            &&& change.rdev matches Some(rdev) ==> after->0.rdev == rdev
            &&& before is Some && change.mode is None ==> after->0.mode == before->0.mode
            &&& before is Some && change.uid is None ==> after->0.uid == before->0.uid
            &&& before is Some && change.gid is None ==> after->0.gid == before->0.gid
            &&& before is Some && change.rdev is None ==> after->0.rdev == before->0.rdev
            &&& before is None && after is Some && change.mode is None ==> after->0.mode == 0
            &&& before is None && after is Some && change.uid is None ==> after->0.uid == 0
            &&& before is None && after is Some && change.gid is None ==> after->0.gid == 0
            &&& before is None && after is Some && change.rdev is None ==> after->0.rdev == 0
            &&& before is Some ==> after is Some
        }),
{
}

/// Without a change of attributes, only the change time can become another.
pub proof fn lemma_change_time_changes_alone(was: ObjectAttributes, change_time: Option<Timestamp>)
    ensures
        ({
            let after = attributes_after(was, None, change_time);
            &&& change_time matches Some(time) ==> after.change_time == time
            &&& change_time is None ==> after.change_time == was.change_time
            &&& after.creation_time == was.creation_time
            &&& after.modification_time == was.modification_time
            &&& after.access_time == was.access_time
            &&& after.posix_attributes == was.posix_attributes
            &&& after.project_id == was.project_id
            &&& after.allocated_size == was.allocated_size
        }),
{
}

/// There is something to change exactly if a change time is given or the change sets any attribute.
pub proof fn lemma_anything_that_is_set_is_a_change(
    change: MutableNodeAttributes,
    change_time: Option<Timestamp>,
)
    ensures
        change_time is Some ==> !spec_no_change(None, change_time) && !spec_no_change(
            Some(change),
            change_time,
        ),
        spec_no_change(None, None),
        change.creation_time is Some ==> !spec_no_change(Some(change), change_time),
        change.modification_time is Some ==> !spec_no_change(Some(change), change_time),
        change.access_time is Some ==> !spec_no_change(Some(change), change_time),
        change.mode is Some ==> !spec_no_change(Some(change), change_time),
        change.uid is Some ==> !spec_no_change(Some(change), change_time),
        change.gid is Some ==> !spec_no_change(Some(change), change_time),
        change.rdev is Some ==> !spec_no_change(Some(change), change_time),
        change.others ==> !spec_no_change(Some(change), change_time),
        change.creation_time is None && change.modification_time is None && change.access_time is None
            && change.mode is None && change.uid is None && change.gid is None && change.rdev is None
            && !change.others ==> spec_no_change(Some(change), None),
{
}

/// An object that gets other attributes is otherwise the same: it has the same key, kind and sequence, and
/// is changed by the same operation.  The attributes that it got last are those that it has.
pub proof fn lemma_other_attributes_keep_the_object(
    mutation: ObjectStoreMutation,
    first: ObjectAttributes,
    second: ObjectAttributes,
)
    requires
        mutation.item.value is Object,
    ensures
        ({
            let changed = with_attributes(mutation, first);
            &&& changed.item.value is Object
            &&& changed.item.value->Object_attributes == first
            &&& changed.item.value->Object_kind == mutation.item.value->Object_kind
            &&& changed.item.key == mutation.item.key
            &&& changed.item.sequence == mutation.item.sequence
            &&& changed.op == mutation.op
            &&& with_attributes(changed, second) == with_attributes(mutation, second)
            &&& with_attributes(changed, mutation.item.value->Object_attributes) == mutation
        }),
{
}

/// An access is noted if anything changed since the last one, or at the same time; otherwise exactly if a
/// day has passed.  So once it is noted, a second access on the same day is not.
pub proof fn lemma_accesses_are_noted_once_a_day(
    access_time: Timestamp,
    modification_time: Timestamp,
    change_time: Timestamp,
    now: Timestamp,
)
    ensures
        modification_time.nanos >= access_time.nanos ==> spec_should_update_access_time(
            access_time,
            modification_time,
            change_time,
            now,
        ),
        change_time.nanos >= access_time.nanos ==> spec_should_update_access_time(
            access_time,
            modification_time,
            change_time,
            now,
        ),
        modification_time.nanos < access_time.nanos && change_time.nanos < access_time.nanos ==> (
        spec_should_update_access_time(access_time, modification_time, change_time, now)
            <==> access_time.nanos + 86_400_000_000_000 < now.nanos),
        modification_time.nanos < now.nanos && change_time.nanos < now.nanos
            ==> !spec_should_update_access_time(now, modification_time, change_time, now),
{
}

/// Noting an access sets the access time to that moment and changes nothing else.
pub proof fn lemma_noting_an_access_sets_that_time_alone(was: ObjectAttributes, now: Timestamp)
    ensures
        ({
            let after = attributes_after(was, Some(access_time_change(now)), None);
            &&& after.access_time == now
            &&& after == (ObjectAttributes { access_time: now, ..was })
            &&& !spec_no_change(Some(access_time_change(now)), None)
            &&& !access_time_change(now).others
        }),
{
}

} // verus!
