//! The records that an object store keeps: what they are found by, and what they hold.
use crate::lexicographic::{lemma_first_difference_decides, lex_lt};
use vstd::prelude::*;

verus! {

/// No object has this identifier.
pub const INVALID_OBJECT_ID: u64 = 0;

/// The attribute that holds the data of a file.
pub const DEFAULT_DATA_ATTRIBUTE_ID: u64 = 0;

/// The key that a key set holds for the data of the volume.
pub const VOLUME_DATA_KEY_ID: u64 = 0;

/// The key that a key set holds for an encrypted directory or file.
pub const FSCRYPT_KEY_ID: u64 = 1;

/// `bytes`, one number for each.
pub open spec fn widened(bytes: Seq<u8>) -> Seq<u64> {
    bytes.map(|i: int, byte: u8| byte as u64)
}

/// Appends `bytes` to `numbers`, one number for each.
pub fn append_widened(numbers: &mut Vec<u64>, bytes: &Vec<u8>)
    ensures
        final(numbers)@ == old(numbers)@ + widened(bytes@),
{
    let mut i: usize = 0;
    assert(numbers@ =~= old(numbers)@ + widened(bytes@).take(0));
    while i < bytes.len()
        invariant
            i <= bytes@.len(),
            numbers@ == old(numbers)@ + widened(bytes@).take(i as int),
        decreases bytes@.len() - i,
    {
        numbers.push(bytes[i] as u64);
        assert(widened(bytes@).take(i + 1) =~= widened(bytes@).take(i as int).push(
            bytes@[i as int] as u64,
        ));
        assert(numbers@ =~= old(numbers)@ + widened(bytes@).take(i + 1));
        i += 1;
    }
    assert(widened(bytes@).take(bytes@.len() as int) =~= widened(bytes@));
}

proof fn lemma_widened_injective(a: Seq<u8>, b: Seq<u8>)
    ensures
        widened(a) == widened(b) <==> a == b,
{
    if widened(a) == widened(b) {
        assert(a.len() == widened(a).len() && b.len() == widened(b).len());
        assert forall|i: int| 0 <= i < a.len() implies a[i] == b[i] by {
            assert(widened(a)[i] == widened(b)[i]);
        }
        assert(a =~= b);
    }
}

/// Copies bytes.
pub fn copy_bytes(bytes: &Vec<u8>) -> (copy: Vec<u8>)
    ensures
        copy@ == bytes@,
{
    let copy = bytes.clone();
    assert(copy@ =~= bytes@);
    copy
}

/// What is accounted for a project.
#[derive(Clone, Copy, Debug, PartialEq, Eq, Structural)]
pub enum ProjectProperty {
    Limit,
    Usage,
}

/// Where an extent lies in an attribute.
#[derive(Clone, Copy, Debug, PartialEq, Eq, Structural)]
pub struct ExtentKey {
    pub start: u64,
    pub end: u64,
}

/// A part of an attribute.
#[derive(Clone, Copy, Debug, PartialEq, Eq, Structural)]
pub enum AttributeKey {
    /// The size of the attribute.
    Attribute,
    /// Where a part of the attribute lies on the device.
    Extent(ExtentKey),
}

/// What a record says of its object.
#[derive(Debug)]
pub enum ObjectKeyData {
    /// The object itself.
    Object,
    /// Its encryption keys.
    Keys,
    /// An attribute.
    Attribute(u64, AttributeKey),
    /// A child of a directory.
    Child { name: Vec<u8> },
    /// An object that waits to be purged or trimmed.
    GraveyardEntry { object_id: u64 },
    /// The limit or the usage of a project.
    Project { project_id: u64, property: ProjectProperty },
    /// An extended attribute.
    ExtendedAttribute { name: Vec<u8> },
    /// An attribute that waits to be purged.
    GraveyardAttributeEntry { object_id: u64, attribute_id: u64 },
    /// A child of an encrypted directory.
    EncryptedChild { name: Vec<u8> },
    /// A child of a directory that ignores case.
    CasefoldChild { name: Vec<u8> },
}

/// What a record is found by.
#[derive(Debug)]
pub struct ObjectKey {
    pub object_id: u64,
    pub data: ObjectKeyData,
}

impl ObjectKeyData {
    /// The numbers that stand for this, in order of significance.
    pub open spec fn spec_order(self) -> Seq<u64> {
        match self {
            ObjectKeyData::Object => seq![0u64],
            ObjectKeyData::Keys => seq![1u64],
            ObjectKeyData::Attribute(id, AttributeKey::Attribute) => seq![2u64, id, 0u64],
            ObjectKeyData::Attribute(id, AttributeKey::Extent(extent)) => seq![
                2u64,
                id,
                1u64,
                extent.start,
                extent.end,
            ],
            ObjectKeyData::Child { name } => seq![3u64] + widened(name@),
            ObjectKeyData::GraveyardEntry { object_id } => seq![4u64, object_id],
            ObjectKeyData::Project { project_id, property: ProjectProperty::Limit } => seq![
                5u64,
                project_id,
                0u64,
            ],
            ObjectKeyData::Project { project_id, property: ProjectProperty::Usage } => seq![
                5u64,
                project_id,
                1u64,
            ],
            ObjectKeyData::ExtendedAttribute { name } => seq![6u64] + widened(name@),
            ObjectKeyData::GraveyardAttributeEntry { object_id, attribute_id } => seq![
                7u64,
                object_id,
                attribute_id,
            ],
            ObjectKeyData::EncryptedChild { name } => seq![8u64] + widened(name@),
            ObjectKeyData::CasefoldChild { name } => seq![9u64] + widened(name@),
        }
    }

    /// Both say the same: names are compared by their bytes.
    pub open spec fn same(self, other: ObjectKeyData) -> bool {
        match (self, other) {
            (ObjectKeyData::Child { name: a }, ObjectKeyData::Child { name: b }) => a@ == b@,
            (
                ObjectKeyData::ExtendedAttribute { name: a },
                ObjectKeyData::ExtendedAttribute { name: b },
            ) => a@ == b@,
            (
                ObjectKeyData::EncryptedChild { name: a },
                ObjectKeyData::EncryptedChild { name: b },
            ) => a@ == b@,
            (
                ObjectKeyData::CasefoldChild { name: a },
                ObjectKeyData::CasefoldChild { name: b },
            ) => a@ == b@,
            _ => self == other,
        }
    }

    /// Returns the numbers that stand for this.
    pub fn order(&self) -> (order: Vec<u64>)
        ensures
            order@ == self.spec_order(),
    {
        let mut order: Vec<u64> = Vec::new();
        match self {
            ObjectKeyData::Object => {
                order.push(0);
            },
            ObjectKeyData::Keys => {
                order.push(1);
            },
            ObjectKeyData::Attribute(id, AttributeKey::Attribute) => {
                order.push(2);
                order.push(*id);
                order.push(0);
            },
            ObjectKeyData::Attribute(id, AttributeKey::Extent(extent)) => {
                order.push(2);
                order.push(*id);
                order.push(1);
                order.push(extent.start);
                order.push(extent.end);
            },
            ObjectKeyData::Child { name } => {
                order.push(3);
                append_widened(&mut order, name);
            },
            ObjectKeyData::GraveyardEntry { object_id } => {
                order.push(4);
                order.push(*object_id);
            },
            ObjectKeyData::Project { project_id, property: ProjectProperty::Limit } => {
                order.push(5);
                order.push(*project_id);
                order.push(0);
            },
            ObjectKeyData::Project { project_id, property: ProjectProperty::Usage } => {
                order.push(5);
                order.push(*project_id);
                order.push(1);
            },
            ObjectKeyData::ExtendedAttribute { name } => {
                order.push(6);
                append_widened(&mut order, name);
            },
            ObjectKeyData::GraveyardAttributeEntry { object_id, attribute_id } => {
                order.push(7);
                order.push(*object_id);
                order.push(*attribute_id);
            },
            ObjectKeyData::EncryptedChild { name } => {
                order.push(8);
                append_widened(&mut order, name);
            },
            ObjectKeyData::CasefoldChild { name } => {
                order.push(9);
                append_widened(&mut order, name);
            },
        }
        assert(order@ =~= self.spec_order());
        order
    }

    /// Copies this.
    pub fn duplicate(&self) -> (copy: Self)
        ensures
            copy.same(*self),
    {
        match self {
            ObjectKeyData::Object => ObjectKeyData::Object,
            ObjectKeyData::Keys => ObjectKeyData::Keys,
            ObjectKeyData::Attribute(id, key) => ObjectKeyData::Attribute(*id, *key),
            ObjectKeyData::Child { name } => ObjectKeyData::Child { name: copy_bytes(name) },
            ObjectKeyData::GraveyardEntry { object_id } => ObjectKeyData::GraveyardEntry {
                object_id: *object_id,
            },
            ObjectKeyData::Project { project_id, property } => ObjectKeyData::Project {
                project_id: *project_id,
                property: *property,
            },
            ObjectKeyData::ExtendedAttribute { name } => ObjectKeyData::ExtendedAttribute {
                name: copy_bytes(name),
            },
            ObjectKeyData::GraveyardAttributeEntry { object_id, attribute_id } => {
                ObjectKeyData::GraveyardAttributeEntry {
                    object_id: *object_id,
                    attribute_id: *attribute_id,
                }
            },
            ObjectKeyData::EncryptedChild { name } => ObjectKeyData::EncryptedChild {
                name: copy_bytes(name),
            },
            ObjectKeyData::CasefoldChild { name } => ObjectKeyData::CasefoldChild {
                name: copy_bytes(name),
            },
        }
    }
}

proof fn lemma_data_order_injective(a: ObjectKeyData, b: ObjectKeyData)
    ensures
        a.spec_order() == b.spec_order() <==> a.same(b),
{
    let (x, y) = (a.spec_order(), b.spec_order());
    if x == y {
        assert(x[0] == y[0]);
        assert(x.len() == y.len());
        match a {
            ObjectKeyData::Child { name } => {
                let other = b->Child_name;
                assert(x.skip(1) =~= widened(name@));
                assert(y.skip(1) =~= widened(other@));
                lemma_widened_injective(name@, other@);
            },
            ObjectKeyData::ExtendedAttribute { name } => {
                let other = b->ExtendedAttribute_name;
                assert(x.skip(1) =~= widened(name@));
                assert(y.skip(1) =~= widened(other@));
                lemma_widened_injective(name@, other@);
            },
            ObjectKeyData::EncryptedChild { name } => {
                let other = b->EncryptedChild_name;
                assert(x.skip(1) =~= widened(name@));
                assert(y.skip(1) =~= widened(other@));
                lemma_widened_injective(name@, other@);
            },
            ObjectKeyData::CasefoldChild { name } => {
                let other = b->CasefoldChild_name;
                assert(x.skip(1) =~= widened(name@));
                assert(y.skip(1) =~= widened(other@));
                lemma_widened_injective(name@, other@);
            },
            _ => {
                if x.len() > 1 {
                    assert(x[1] == y[1]);
                }
                if x.len() > 2 {
                    assert(x[2] == y[2]);
                }
                if x.len() > 3 {
                    assert(x[3] == y[3]);
                    assert(x[4] == y[4]);
                }
            },
        }
    }
}

impl ObjectKey {
    /// The numbers that stand for this key, in order of significance.
    pub open spec fn spec_order(self) -> Seq<u64> {
        seq![self.object_id] + self.data.spec_order()
    }

    /// Both find the same record.
    pub open spec fn same(self, other: ObjectKey) -> bool {
        self.object_id == other.object_id && self.data.same(other.data)
    }

    /// The key of an object.
    pub open spec fn spec_object(object_id: u64) -> ObjectKey {
        ObjectKey { object_id, data: ObjectKeyData::Object }
    }

    /// The key of an entry in the graveyard.
    pub open spec fn spec_graveyard_entry(graveyard_object_id: u64, object_id: u64) -> ObjectKey {
        ObjectKey {
            object_id: graveyard_object_id,
            data: ObjectKeyData::GraveyardEntry { object_id },
        }
    }

    pub fn object(object_id: u64) -> (key: Self)
        ensures
            key == Self::spec_object(object_id),
    {
        ObjectKey { object_id, data: ObjectKeyData::Object }
    }

    pub fn keys(object_id: u64) -> (key: Self)
        ensures
            key == (ObjectKey { object_id, data: ObjectKeyData::Keys }),
    {
        ObjectKey { object_id, data: ObjectKeyData::Keys }
    }

    pub fn attribute(object_id: u64, attribute_id: u64, key: AttributeKey) -> (object_key: Self)
        ensures
            object_key == (ObjectKey {
                object_id,
                data: ObjectKeyData::Attribute(attribute_id, key),
            }),
    {
        ObjectKey { object_id, data: ObjectKeyData::Attribute(attribute_id, key) }
    }

    pub fn extent(object_id: u64, attribute_id: u64, start: u64, end: u64) -> (key: Self)
        ensures
            key == (ObjectKey {
                object_id,
                data: ObjectKeyData::Attribute(
                    attribute_id,
                    AttributeKey::Extent(ExtentKey { start, end }),
                ),
            }),
    {
        ObjectKey {
            object_id,
            data: ObjectKeyData::Attribute(
                attribute_id,
                AttributeKey::Extent(ExtentKey { start, end }),
            ),
        }
    }

    pub fn graveyard_entry(graveyard_object_id: u64, object_id: u64) -> (key: Self)
        ensures
            key == Self::spec_graveyard_entry(graveyard_object_id, object_id),
    {
        ObjectKey {
            object_id: graveyard_object_id,
            data: ObjectKeyData::GraveyardEntry { object_id },
        }
    }

    pub fn graveyard_attribute_entry(
        graveyard_object_id: u64,
        object_id: u64,
        attribute_id: u64,
    ) -> (key: Self)
        ensures
            key == (ObjectKey {
                object_id: graveyard_object_id,
                data: ObjectKeyData::GraveyardAttributeEntry { object_id, attribute_id },
            }),
    {
        ObjectKey {
            object_id: graveyard_object_id,
            data: ObjectKeyData::GraveyardAttributeEntry { object_id, attribute_id },
        }
    }

    pub fn project_limit(root_object_id: u64, project_id: u64) -> (key: Self)
        ensures
            key == (ObjectKey {
                object_id: root_object_id,
                data: ObjectKeyData::Project { project_id, property: ProjectProperty::Limit },
            }),
    {
        ObjectKey {
            object_id: root_object_id,
            data: ObjectKeyData::Project { project_id, property: ProjectProperty::Limit },
        }
    }

    pub fn project_usage(root_object_id: u64, project_id: u64) -> (key: Self)
        ensures
            key == (ObjectKey {
                object_id: root_object_id,
                data: ObjectKeyData::Project { project_id, property: ProjectProperty::Usage },
            }),
    {
        ObjectKey {
            object_id: root_object_id,
            data: ObjectKeyData::Project { project_id, property: ProjectProperty::Usage },
        }
    }

    /// Returns the numbers that stand for this key.
    pub fn order(&self) -> (order: Vec<u64>)
        ensures
            order@ == self.spec_order(),
    {
        let mut order: Vec<u64> = Vec::new();
        order.push(self.object_id);
        let mut rest = self.data.order();
        order.append(&mut rest);
        assert(order@ =~= self.spec_order());
        order
    }

    /// Copies this key.
    pub fn duplicate(&self) -> (copy: Self)
        ensures
            copy.same(*self),
    {
        ObjectKey { object_id: self.object_id, data: self.data.duplicate() }
    }
}

/// The numbers that stand for a key tell it from every other key.
pub proof fn lemma_key_order_injective(a: ObjectKey, b: ObjectKey)
    ensures
        a.spec_order() == b.spec_order() <==> a.same(b),
{
    let (x, y) = (a.spec_order(), b.spec_order());
    lemma_data_order_injective(a.data, b.data);
    assert(x.skip(1) =~= a.data.spec_order());
    assert(y.skip(1) =~= b.data.spec_order());
    if x == y {
        assert(x[0] == y[0]);
    } else if a.same(b) {
        assert(x =~= y);
    }
}

/// A point in time, in nanoseconds since the epoch.
#[derive(Clone, Copy, Debug, PartialEq, Eq, Structural)]
pub struct Timestamp {
    pub nanos: u64,
}

impl Timestamp {
    pub fn from_nanos(nanos: u64) -> (timestamp: Self)
        ensures
            timestamp.nanos == nanos,
    {
        Timestamp { nanos }
    }

    pub fn as_nanos(&self) -> (nanos: u64)
        ensures
            nanos == self.nanos,
    {
        self.nanos
    }
}

/// The attributes that only POSIX knows.
#[derive(Clone, Copy, Debug, PartialEq, Eq, Structural)]
pub struct PosixAttributes {
    pub mode: u32,
    pub uid: u32,
    pub gid: u32,
    pub rdev: u64,
}

/// The attributes of every object.
#[derive(Clone, Copy, Debug, PartialEq, Eq, Structural)]
pub struct ObjectAttributes {
    pub creation_time: Timestamp,
    pub modification_time: Timestamp,
    /// The project that the object is accounted to, or zero.
    pub project_id: u64,
    pub posix_attributes: Option<PosixAttributes>,
    /// How many bytes the object occupies on the device.
    pub allocated_size: u64,
    pub access_time: Timestamp,
    pub change_time: Timestamp,
}

/// What kind of object it is.
#[derive(Debug)]
pub enum ObjectKind {
    File { refs: u64 },
    Directory { sub_dirs: u64 },
    Graveyard,
    Symlink { refs: u64, link: Vec<u8> },
    EncryptedSymlink { refs: u64, link: Vec<u8> },
}

impl ObjectKind {
    /// Both are the same kind with the same content.
    pub open spec fn same(self, other: ObjectKind) -> bool {
        match (self, other) {
            (
                ObjectKind::Symlink { refs: r, link: a },
                ObjectKind::Symlink { refs: s, link: b },
            ) => r == s && a@ == b@,
            (
                ObjectKind::EncryptedSymlink { refs: r, link: a },
                ObjectKind::EncryptedSymlink { refs: s, link: b },
            ) => r == s && a@ == b@,
            _ => self == other,
        }
    }

    pub fn duplicate(&self) -> (copy: Self)
        ensures
            copy.same(*self),
    {
        match self {
            ObjectKind::File { refs } => ObjectKind::File { refs: *refs },
            ObjectKind::Directory { sub_dirs } => ObjectKind::Directory { sub_dirs: *sub_dirs },
            ObjectKind::Graveyard => ObjectKind::Graveyard,
            ObjectKind::Symlink { refs, link } => ObjectKind::Symlink {
                refs: *refs,
                link: copy_bytes(link),
            },
            ObjectKind::EncryptedSymlink { refs, link } => ObjectKind::EncryptedSymlink {
                refs: *refs,
                link: copy_bytes(link),
            },
        }
    }
}

/// How many bytes a wrapped key has.
pub const FXFS_WRAPPED_KEY_SIZE: usize = 48;

/// A key that is wrapped with another key.
#[derive(Clone, Copy, Debug, PartialEq, Eq)]
pub struct FxfsKey {
    pub wrapping_key_id: u128,
    pub key: [u8; 48],
}

/// How an extent is written.
#[derive(Clone, Copy, Debug, PartialEq, Eq, Structural)]
pub enum ExtentMode {
    /// Written in place, without checksums.
    Raw,
    /// Written to a new place, with checksums.
    Cow,
    /// Written in place, partly with checksums.
    OverwritePartial,
    /// Written in place, with checksums that may be stale.
    Overwrite,
}

/// Where an extent lies.
#[derive(Clone, Copy, Debug, PartialEq, Eq, Structural)]
pub enum ExtentValue {
    /// The extent was deleted.
    Deleted,
    /// The extent lies on the device.
    Mapped { device_offset: u64, mode: ExtentMode, key_id: u64 },
}

/// The digest that a verified file is checked against.
#[derive(Debug)]
pub struct FsverityMetadata {
    pub root_digest: Vec<u8>,
    pub salt: Vec<u8>,
}

/// What kind of object a directory entry names.
#[derive(Clone, Copy, Debug, PartialEq, Eq, Structural)]
pub enum ObjectDescriptor {
    File,
    Directory,
    Volume,
    Symlink,
}

/// What a record holds.
#[derive(Debug)]
pub enum ObjectValue {
    /// The record was deleted.
    Deleted,
    /// The record is there; it holds nothing else.
    Present,
    /// An object.
    Object { kind: ObjectKind, attributes: ObjectAttributes },
    /// Encryption keys.
    Keys(Vec<(u64, FxfsKey)>),
    /// The size of an attribute.
    Attribute { size: u64, has_overwrite_extents: bool },
    /// Where a part of an attribute lies.
    Extent(ExtentValue),
    /// A child of a directory.
    Child { object_id: u64, descriptor: ObjectDescriptor },
    /// The object waits to be trimmed.
    Trim,
    /// Changes to the bytes and nodes that a project uses, or their sum.
    BytesAndNodes { bytes: i64, nodes: i64 },
    /// The content of an extended attribute.
    ExtendedAttribute(Vec<u8>),
    /// The size of an attribute that is verified when it is read.
    VerifiedAttribute { size: u64, fsverity_metadata: FsverityMetadata },
}

impl ObjectValue {
    /// Both hold the same.
    pub open spec fn same(self, other: ObjectValue) -> bool {
        match (self, other) {
            (
                ObjectValue::Object { kind: a, attributes: x },
                ObjectValue::Object { kind: b, attributes: y },
            ) => a.same(b) && x == y,
            (ObjectValue::Keys(a), ObjectValue::Keys(b)) => a@ == b@,
            (ObjectValue::ExtendedAttribute(a), ObjectValue::ExtendedAttribute(b)) => a@ == b@,
            (
                ObjectValue::VerifiedAttribute { size: x, fsverity_metadata: a },
                ObjectValue::VerifiedAttribute { size: y, fsverity_metadata: b },
            ) => x == y && a.root_digest@ == b.root_digest@ && a.salt@ == b.salt@,
            _ => self == other,
        }
    }

    pub fn duplicate(&self) -> (copy: Self)
        ensures
            copy.same(*self),
    {
        match self {
            ObjectValue::Deleted => ObjectValue::Deleted,
            ObjectValue::Present => ObjectValue::Present,
            ObjectValue::Object { kind, attributes } => ObjectValue::Object {
                kind: kind.duplicate(),
                attributes: *attributes,
            },
            ObjectValue::Keys(keys) => {
                let mut copy: Vec<(u64, FxfsKey)> = Vec::new();
                let mut i: usize = 0;
                while i < keys.len()
                    invariant
                        i <= keys@.len(),
                        copy@ == keys@.take(i as int),
                    decreases keys@.len() - i,
                {
                    copy.push((keys[i].0, keys[i].1));
                    assert(copy@ =~= keys@.take(i + 1));
                    i += 1;
                }
                assert(copy@ =~= keys@);
                ObjectValue::Keys(copy)
            },
            ObjectValue::Attribute { size, has_overwrite_extents } => ObjectValue::Attribute {
                size: *size,
                has_overwrite_extents: *has_overwrite_extents,
            },
            ObjectValue::Extent(value) => ObjectValue::Extent(*value),
            ObjectValue::Child { object_id, descriptor } => ObjectValue::Child {
                object_id: *object_id,
                descriptor: *descriptor,
            },
            ObjectValue::Trim => ObjectValue::Trim,
            ObjectValue::BytesAndNodes { bytes, nodes } => ObjectValue::BytesAndNodes {
                bytes: *bytes,
                nodes: *nodes,
            },
            ObjectValue::ExtendedAttribute(bytes) => ObjectValue::ExtendedAttribute(
                copy_bytes(bytes),
            ),
            ObjectValue::VerifiedAttribute { size, fsverity_metadata } => {
                ObjectValue::VerifiedAttribute {
                    size: *size,
                    fsverity_metadata: FsverityMetadata {
                        root_digest: copy_bytes(&fsverity_metadata.root_digest),
                        salt: copy_bytes(&fsverity_metadata.salt),
                    },
                }
            },
        }
    }
}

/// A record.
#[derive(Debug)]
pub struct ObjectItem {
    pub key: ObjectKey,
    pub value: ObjectValue,
    /// Where in the journal the record was written.
    pub sequence: u64,
}

impl ObjectItem {
    pub fn new(key: ObjectKey, value: ObjectValue) -> (item: Self)
        ensures
            item == (ObjectItem { key, value, sequence: 0 }),
    {
        ObjectItem { key, value, sequence: 0 }
    }

    /// Both are the same record.
    pub open spec fn same(self, other: ObjectItem) -> bool {
        self.key.same(other.key) && self.value.same(other.value) && self.sequence == other.sequence
    }

    /// The record marks its object as deleted.
    pub open spec fn spec_is_tombstone(self) -> bool {
        self.key.data is Object && self.value is Deleted
    }

    /// Returns whether the record marks its object as deleted.
    pub fn is_tombstone(&self) -> (is: bool)
        ensures
            is == self.spec_is_tombstone(),
    {
        matches!(self.key.data, ObjectKeyData::Object) && matches!(self.value, ObjectValue::Deleted)
    }

    pub fn duplicate(&self) -> (copy: Self)
        ensures
            copy.same(*self),
    {
        ObjectItem {
            key: self.key.duplicate(),
            value: self.value.duplicate(),
            sequence: self.sequence,
        }
    }
}

/// Keys of the same kind find the same record if and only if they hold the same name, object, attribute, place or
/// project; keys of different kinds never do.
pub proof fn lemma_same_keys_hold_the_same(a: ObjectKeyData, b: ObjectKeyData)
    ensures
        a.same(b) ==> {
            &&& a is Object <==> b is Object
            &&& a is Keys <==> b is Keys
            &&& a matches ObjectKeyData::Attribute(id, part) ==> b == ObjectKeyData::Attribute(id, part)
            &&& a matches ObjectKeyData::Child { name } ==> (b matches ObjectKeyData::Child { name: other }
                && other@ == name@)
            &&& a matches ObjectKeyData::GraveyardEntry { object_id } ==> b
                == (ObjectKeyData::GraveyardEntry { object_id })
            &&& a matches ObjectKeyData::Project { project_id, property } ==> b
                == (ObjectKeyData::Project { project_id, property })
            &&& a matches ObjectKeyData::ExtendedAttribute { name } ==> (
            b matches ObjectKeyData::ExtendedAttribute { name: other } && other@ == name@)
            &&& a matches ObjectKeyData::GraveyardAttributeEntry { object_id, attribute_id } ==> b
                == (ObjectKeyData::GraveyardAttributeEntry { object_id, attribute_id })
            &&& a matches ObjectKeyData::EncryptedChild { name } ==> (
            b matches ObjectKeyData::EncryptedChild { name: other } && other@ == name@)
            &&& a matches ObjectKeyData::CasefoldChild { name } ==> (
            b matches ObjectKeyData::CasefoldChild { name: other } && other@ == name@)
        },
        a == b ==> a.same(b),
{
}

/// To find the same record is the same both ways, and passes on.
pub proof fn lemma_same_is_an_equivalence(a: ObjectItem, b: ObjectItem, c: ObjectItem)
    ensures
        a.same(a),
        a.same(b) <==> b.same(a),
        a.same(b) && b.same(c) ==> a.same(c),
        a.same(b) ==> a.sequence == b.sequence && a.key.object_id == b.key.object_id,
        a.same(b) ==> a.key.same(b.key) && a.value.same(b.value),
{
}

/// Records of one object stand together: those of an object with a smaller identifier come before them.
pub proof fn lemma_records_of_an_object_stand_together(a: ObjectKey, b: ObjectKey)
    ensures
        a.object_id < b.object_id ==> lex_lt(a.spec_order(), b.spec_order()),
        a.object_id == b.object_id ==> (lex_lt(a.spec_order(), b.spec_order()) <==> lex_lt(
            a.data.spec_order(),
            b.data.spec_order(),
        )),
{
    assert(a.spec_order()[0] == a.object_id);
    assert(b.spec_order()[0] == b.object_id);
    assert(a.spec_order().skip(1) =~= a.data.spec_order());
    assert(b.spec_order().skip(1) =~= b.data.spec_order());
}

/// The record of an object comes before all other records of it, and its keys come next.
pub proof fn lemma_object_comes_first(object_id: u64, other: ObjectKeyData)
    ensures
        !(other is Object) ==> lex_lt(
            ObjectKey::spec_object(object_id).spec_order(),
            (ObjectKey { object_id, data: other }).spec_order(),
        ),
        !(other is Object) && !(other is Keys) ==> lex_lt(
            (ObjectKey { object_id, data: ObjectKeyData::Keys }).spec_order(),
            (ObjectKey { object_id, data: other }).spec_order(),
        ),
{
    lemma_records_of_an_object_stand_together(
        ObjectKey::spec_object(object_id),
        ObjectKey { object_id, data: other },
    );
    lemma_records_of_an_object_stand_together(
        ObjectKey { object_id, data: ObjectKeyData::Keys },
        ObjectKey { object_id, data: other },
    );
    assert(other.spec_order().len() > 0);
}

/// The size of an attribute comes before its extents, these are in the order of where they start, and attributes
/// are in the order of their identifiers.
pub proof fn lemma_attributes_are_in_order(id: u64, later_id: u64, a: ExtentKey, b: ExtentKey)
    ensures
        lex_lt(
            ObjectKeyData::Attribute(id, AttributeKey::Attribute).spec_order(),
            ObjectKeyData::Attribute(id, AttributeKey::Extent(a)).spec_order(),
        ),
        a.start < b.start ==> lex_lt(
            ObjectKeyData::Attribute(id, AttributeKey::Extent(a)).spec_order(),
            ObjectKeyData::Attribute(id, AttributeKey::Extent(b)).spec_order(),
        ),
        a.start == b.start && a.end < b.end ==> lex_lt(
            ObjectKeyData::Attribute(id, AttributeKey::Extent(a)).spec_order(),
            ObjectKeyData::Attribute(id, AttributeKey::Extent(b)).spec_order(),
        ),
        id < later_id ==> lex_lt(
            ObjectKeyData::Attribute(id, AttributeKey::Extent(a)).spec_order(),
            ObjectKeyData::Attribute(later_id, AttributeKey::Attribute).spec_order(),
        ),
{
    reveal_with_fuel(lex_lt, 6);
}

/// Children are in the order of the bytes of their names: the first byte that differs decides.
pub proof fn lemma_children_are_in_order(
    common: Seq<u8>,
    low: u8,
    high: u8,
    a: ObjectKeyData,
    b: ObjectKeyData,
)
    requires
        a is Child,
        b is Child,
        low < high,
        a->Child_name@.len() > common.len(),
        b->Child_name@.len() > common.len(),
        a->Child_name@.take(common.len() as int) == common,
        b->Child_name@.take(common.len() as int) == common,
        a->Child_name@[common.len() as int] == low,
        b->Child_name@[common.len() as int] == high,
    ensures
        lex_lt(a.spec_order(), b.spec_order()),
{
    let x = a->Child_name@;
    let y = b->Child_name@;
    let len = common.len() as int;
    lemma_first_difference_decides(
        seq![3u64] + widened(common),
        low as u64,
        high as u64,
        widened(x.skip(len + 1)),
        widened(y.skip(len + 1)),
    );
    assert(x =~= common + seq![low] + x.skip(len + 1));
    assert(y =~= common + seq![high] + y.skip(len + 1));
    assert(a.spec_order() =~= (seq![3u64] + widened(common)) + seq![low as u64] + widened(
        x.skip(len + 1),
    ));
    assert(b.spec_order() =~= (seq![3u64] + widened(common)) + seq![high as u64] + widened(
        y.skip(len + 1),
    ));
}

/// Only records of an object as a whole are tombstones, and only if they were deleted.
pub proof fn lemma_tombstones_are_deleted_objects(item: ObjectItem)
    ensures
        item.value is Deleted && item.key.data is Object ==> item.spec_is_tombstone(),
        item.spec_is_tombstone() ==> item.key.same(ObjectKey::spec_object(item.key.object_id)),
        item.spec_is_tombstone() ==> item.value == ObjectValue::Deleted,
{
}

/// The graveyard has an entry of its own for each object, which is none of its other records.
pub proof fn lemma_graveyard_entries_are_told_apart(graveyard: u64, a: u64, b: u64)
    ensures
        ObjectKey::spec_graveyard_entry(graveyard, a).same(ObjectKey::spec_graveyard_entry(graveyard, b))
            <==> a == b,
        ObjectKey::spec_graveyard_entry(graveyard, a).object_id == graveyard,
        !ObjectKey::spec_graveyard_entry(graveyard, a).same(ObjectKey::spec_object(graveyard)),
        ObjectKey::spec_object(a).same(ObjectKey::spec_object(b)) <==> a == b,
{
}

/// Values that hold the same agree in everything: what kind of object it is, its references and attributes, what a link
/// points to, keys, sizes, places, bytes and nodes.
pub proof fn lemma_same_values_hold_the_same(a: ObjectValue, b: ObjectValue)
    ensures
        a.same(b) ==> {
            &&& a matches ObjectValue::Object { kind, attributes } ==> {
                &&& b matches ObjectValue::Object { kind: other, attributes: others }
                &&& attributes == others
                &&& kind matches ObjectKind::File { refs } ==> other == (ObjectKind::File { refs })
                &&& kind matches ObjectKind::Directory { sub_dirs } ==> other == (ObjectKind::Directory {
                    sub_dirs,
                })
                &&& kind is Graveyard ==> other is Graveyard
                &&& kind matches ObjectKind::Symlink { refs, link } ==> (other matches ObjectKind::Symlink {
                    refs: r,
                    link: l,
                } && r == refs && l@ == link@)
                &&& kind matches ObjectKind::EncryptedSymlink { refs, link } ==> (
                other matches ObjectKind::EncryptedSymlink { refs: r, link: l } && r == refs && l@ == link@)
            }
            &&& a matches ObjectValue::Keys(keys) ==> (b matches ObjectValue::Keys(others) && others@
                == keys@)
            &&& a matches ObjectValue::Attribute { size, has_overwrite_extents } ==> b
                == (ObjectValue::Attribute { size, has_overwrite_extents })
            &&& a matches ObjectValue::Extent(extent) ==> b == ObjectValue::Extent(extent)
            &&& a matches ObjectValue::Child { object_id, descriptor } ==> b == (ObjectValue::Child {
                object_id,
                descriptor,
            })
            &&& a matches ObjectValue::BytesAndNodes { bytes, nodes } ==> b == (ObjectValue::BytesAndNodes {
                bytes,
                nodes,
            })
            &&& a matches ObjectValue::ExtendedAttribute(value) ==> (
            b matches ObjectValue::ExtendedAttribute(other) && other@ == value@)
            &&& a matches ObjectValue::VerifiedAttribute { size, fsverity_metadata } ==> (
            b matches ObjectValue::VerifiedAttribute { size: other, fsverity_metadata: metadata } && other == size
                && metadata.root_digest@ == fsverity_metadata.root_digest@ && metadata.salt@
                == fsverity_metadata.salt@)
            &&& a is Deleted <==> b is Deleted
            &&& a is Present <==> b is Present
            &&& a is Trim <==> b is Trim
        },
{
}

} // verus!
